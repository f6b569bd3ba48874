use vstd::prelude::*;

use crate::rime::color::{RimeColor, color_of_hex, hex_of_color};
use crate::rime::config::{bool_at, get_bool, get_string, key, string_at};
use crate::rime::edit::{bool_node, string_node};
use crate::rime::text::{contains_text, lowercase, text_contains, to_lowercase};
use crate::rime::yaml::{Entries, YamlMap, YamlNumber, YamlValue, YamlView, i64_of, map_get, map_insert, untag};

verus! {

/// A color scheme of the candidate window. Numbers are kept as the
/// configuration writes them (a double keeps its bits).
pub struct RimeColorScheme {
    pub name: String,
    pub author: String,
    pub color_space: String,
    pub back_color: Option<RimeColor>,
    pub border_color: Option<RimeColor>,
    pub text_color: Option<RimeColor>,
    pub hilited_text_color: Option<RimeColor>,
    pub hilited_back_color: Option<RimeColor>,
    pub hilited_candidate_back_color: Option<RimeColor>,
    pub candidate_text_color: Option<RimeColor>,
    pub hilited_candidate_text_color: Option<RimeColor>,
    pub candidate_label_color: Option<RimeColor>,
    pub hilited_candidate_label_color: Option<RimeColor>,
    pub comment_text_color: Option<RimeColor>,
    pub hilited_comment_text_color: Option<RimeColor>,
    pub preedit_back_color: Option<RimeColor>,
    pub candidate_back_color: Option<RimeColor>,
    pub translucency: Option<bool>,
    pub mutual_exclusive: Option<bool>,
    pub shadow_size: Option<YamlNumber>,
    pub line_spacing: Option<YamlNumber>,
    pub alpha: Option<YamlNumber>,
    pub spacing: Option<YamlNumber>,
    pub candidate_list_layout: Option<String>,
    pub inline_preedit: Option<bool>,
    pub candidate_format: Option<String>,
    pub corner_radius: Option<YamlNumber>,
    pub hilited_corner_radius: Option<YamlNumber>,
    pub border_width: Option<YamlNumber>,
    pub border_height: Option<YamlNumber>,
    pub font_face: Option<String>,
    pub font_point: Option<YamlNumber>,
    pub label_font_face: Option<String>,
    pub label_font_point: Option<YamlNumber>,
    pub comment_font_face: Option<String>,
    pub comment_font_point: Option<YamlNumber>,
}

/// The text an optional string holds.
pub open spec fn opt_text(o: Option<String>) -> Option<Seq<char>> {
    match o {
        Some(s) => Some(s@),
        None => None,
    }
}

/// The number a node holds, seen through tags.
pub open spec fn number_of(v: YamlView) -> Option<YamlNumber> {
    match untag(v) {
        YamlView::Number(n) => Some(n),
        _ => None,
    }
}

pub open spec fn number_at(d: Entries, k: Seq<char>) -> Option<YamlNumber> {
    match map_get(d, k) {
        Some(v) => number_of(v),
        None => None,
    }
}

/// The color an integer writes: `0xBBGGRR` (opaque) up to `0xFFFFFF`, then
/// `0xAABBGGRR` up to `0xFFFFFFFF`; none for other integers.
pub open spec fn color_of_int(i: i64) -> Option<RimeColor> {
    if 0 <= i <= 0xFF_FFFF {
        Some(RimeColor { r: (i % 256) as u8, g: ((i / 256) % 256) as u8, b: ((i / 65536) % 256) as u8, a: 255 })
    } else if 0xFF_FFFF < i <= 0xFFFF_FFFF {
        Some(
            RimeColor {
                r: (i % 256) as u8,
                g: ((i / 256) % 256) as u8,
                b: ((i / 65536) % 256) as u8,
                a: ((i / 16777216) % 256) as u8,
            },
        )
    } else {
        None
    }
}

/// The color under `k`: a color text, or an integer in one of the two color
/// ranges.
pub open spec fn color_at(d: Entries, k: Seq<char>) -> Option<RimeColor> {
    match map_get(d, k) {
        Some(v) => match crate::rime::yaml::str_of(v) {
            Some(s) => color_of_hex(s),
            None => match i64_of(v) {
                Some(i) => color_of_int(i),
                None => None,
            },
        },
        None => None,
    }
}

/// A scheme read from its mapping: `name` given, `author` and `color_space`
/// when they are strings (else empty and `srgb`), and each optional field
/// when it has the right kind.
pub open spec fn scheme_from(s: RimeColorScheme, name: Seq<char>, d: Entries) -> bool {
    &&& s.name@ == name
    &&& s.author@ == match string_at(d, "author"@) { Some(a) => a, None => Seq::empty() }
    &&& s.color_space@ == match string_at(d, "color_space"@) { Some(c) => c, None => "srgb"@ }
    &&& s.back_color == color_at(d, "back_color"@)
    &&& s.border_color == color_at(d, "border_color"@)
    &&& s.text_color == color_at(d, "text_color"@)
    &&& s.hilited_text_color == color_at(d, "hilited_text_color"@)
    &&& s.hilited_back_color == color_at(d, "hilited_back_color"@)
    &&& s.hilited_candidate_back_color == color_at(d, "hilited_candidate_back_color"@)
    &&& s.candidate_text_color == color_at(d, "candidate_text_color"@)
    &&& s.hilited_candidate_text_color == color_at(d, "hilited_candidate_text_color"@)
    &&& s.candidate_label_color == color_at(d, "label_color"@)
    &&& s.hilited_candidate_label_color == color_at(d, "hilited_candidate_label_color"@)
    &&& s.comment_text_color == color_at(d, "comment_text_color"@)
    &&& s.hilited_comment_text_color == color_at(d, "hilited_comment_text_color"@)
    &&& s.preedit_back_color == color_at(d, "preedit_back_color"@)
    &&& s.candidate_back_color == color_at(d, "candidate_back_color"@)
    &&& s.translucency == bool_at(d, "translucency"@)
    &&& s.mutual_exclusive == bool_at(d, "mutual_exclusive"@)
    &&& s.shadow_size == number_at(d, "shadow_size"@)
    &&& s.line_spacing == number_at(d, "line_spacing"@)
    &&& s.alpha == number_at(d, "alpha"@)
    &&& s.spacing == number_at(d, "spacing"@)
    &&& opt_text(s.candidate_list_layout) == string_at(d, "candidate_list_layout"@)
    &&& s.inline_preedit == bool_at(d, "inline_preedit"@)
    &&& opt_text(s.candidate_format) == string_at(d, "candidate_format"@)
    &&& s.corner_radius == number_at(d, "corner_radius"@)
    &&& s.hilited_corner_radius == number_at(d, "hilited_corner_radius"@)
    &&& s.border_width == number_at(d, "border_width"@)
    &&& s.border_height == number_at(d, "border_height"@)
    &&& opt_text(s.font_face) == string_at(d, "font_face"@)
    &&& s.font_point == number_at(d, "font_point"@)
    &&& opt_text(s.label_font_face) == string_at(d, "label_font_face"@)
    &&& s.label_font_point == number_at(d, "label_font_point"@)
    &&& opt_text(s.comment_font_face) == string_at(d, "comment_font_face"@)
    &&& s.comment_font_point == number_at(d, "comment_font_point"@)
}

/// The node a color is written as.
pub open spec fn color_node(c: Option<RimeColor>) -> Option<YamlView> {
    match c {
        Some(x) => Some(YamlView::Str(hex_of_color(x))),
        None => None,
    }
}

pub open spec fn bool_field(b: Option<bool>) -> Option<YamlView> {
    match b {
        Some(x) => Some(YamlView::Bool(x)),
        None => None,
    }
}

pub open spec fn number_field(n: Option<YamlNumber>) -> Option<YamlView> {
    match n {
        Some(x) => Some(YamlView::Number(x)),
        None => None,
    }
}

pub open spec fn text_field(t: Option<Seq<char>>) -> Option<YamlView> {
    match t {
        Some(x) => Some(YamlView::Str(x)),
        None => None,
    }
}

/// The keys a scheme's fields are written under, in order.
pub open spec fn scheme_keys() -> Seq<Seq<char>> {
    seq!["author"@, "color_space"@, "back_color"@, "border_color"@, "text_color"@, "hilited_text_color"@, "hilited_back_color"@, "hilited_candidate_back_color"@, "candidate_text_color"@, "hilited_candidate_text_color"@, "label_color"@, "hilited_candidate_label_color"@, "comment_text_color"@, "hilited_comment_text_color"@, "preedit_back_color"@, "candidate_back_color"@, "translucency"@, "mutual_exclusive"@, "shadow_size"@, "line_spacing"@, "alpha"@, "spacing"@, "candidate_list_layout"@, "inline_preedit"@, "candidate_format"@, "corner_radius"@, "hilited_corner_radius"@, "border_width"@, "border_height"@, "font_face"@, "font_point"@, "label_font_face"@, "label_font_point"@, "comment_font_face"@, "comment_font_point"@] 
}

/// The nodes of a scheme's fields, in the order of `scheme_keys`: `None`
/// for a field that is not written (an empty author, the `srgb` color space,
/// an unset field).
pub open spec fn scheme_values(s: RimeColorScheme) -> Seq<Option<YamlView>> {
    seq![if s.author@.len() > 0 { Some(YamlView::Str(s.author@)) } else { None }, if s.color_space@ != "srgb"@ { Some(YamlView::Str(s.color_space@)) } else { None }, color_node(s.back_color), color_node(s.border_color), color_node(s.text_color), color_node(s.hilited_text_color), color_node(s.hilited_back_color), color_node(s.hilited_candidate_back_color), color_node(s.candidate_text_color), color_node(s.hilited_candidate_text_color), color_node(s.candidate_label_color), color_node(s.hilited_candidate_label_color), color_node(s.comment_text_color), color_node(s.hilited_comment_text_color), color_node(s.preedit_back_color), color_node(s.candidate_back_color), bool_field(s.translucency), bool_field(s.mutual_exclusive), number_field(s.shadow_size), number_field(s.line_spacing), number_field(s.alpha), number_field(s.spacing), text_field(opt_text(s.candidate_list_layout)), bool_field(s.inline_preedit), text_field(opt_text(s.candidate_format)), number_field(s.corner_radius), number_field(s.hilited_corner_radius), number_field(s.border_width), number_field(s.border_height), text_field(opt_text(s.font_face)), number_field(s.font_point), text_field(opt_text(s.label_font_face)), number_field(s.label_font_point), text_field(opt_text(s.comment_font_face)), number_field(s.comment_font_point)]
}

/// `m` with the first `n` fields inserted in order, those that are written.
pub open spec fn inserted_fields(m: Entries, ks: Seq<Seq<char>>, vs: Seq<Option<YamlView>>, n: nat) -> Entries
    decreases n,
{
    if n == 0 {
        m
    } else {
        let m1 = inserted_fields(m, ks, vs, (n - 1) as nat);
        match vs[n - 1] {
            Some(v) => map_insert(m1, ks[n - 1], v),
            None => m1,
        }
    }
}

/// The mapping a scheme is written as: `name`, then each field that is
/// written, in order.
pub open spec fn scheme_entries(s: RimeColorScheme) -> Entries {
    inserted_fields(seq![("name"@, YamlView::Str(s.name@))], scheme_keys(), scheme_values(s), 35)
}

/// Whether the color's luminance `(0.299 r + 0.587 g + 0.114 b) / 255`,
/// computed in doubles, falls below 0.4. In exact arithmetic that is
/// `299 r + 587 g + 114 b < 102000`; at exactly 102000 the rounding of the
/// double sum decides, and falls below for these colors only.
pub open spec fn luminance_below(r: u8, g: u8, b: u8) -> bool {
    let s = 299 * r + 587 * g + 114 * b;
    s < 102000 || (s == 102000 && rounds_below(r, g, b))
}

pub open spec fn rounds_below(r: u8, g: u8, b: u8) -> bool {
    match (r, g, b) {
        (8, 166, 19) | (12, 156, 60) | (23, 157, 26) | (38, 148, 33) | (53, 139, 40) | (57, 129, 81) | (64, 140, 6) | (72, 120, 88) | (79, 131, 13) | (80, 100, 170) | (87, 111, 95) | (94, 122, 20) | (95, 91, 177) | (102, 102, 102) | (113, 103, 68) | (117, 93, 109) | (128, 94, 75) | (143, 85, 82) | (154, 86, 48) | (158, 76, 89) | (159, 45, 246) | (169, 77, 55) | (174, 36, 253) | (177, 57, 137) | (184, 68, 62) | (199, 59, 69) | (200, 28, 226) | (210, 60, 35) | (215, 19, 233) | (225, 51, 42) | (240, 42, 49) | (251, 43, 15) | (255, 33, 56) => true,
        _ => false,
    }
}

/// A scheme is dark when its lower-cased name holds `dark`, or else when its
/// background is dark.
pub open spec fn scheme_is_dark(s: RimeColorScheme) -> bool {
    if contains_text(lowercase(s.name@), "dark"@) {
        true
    } else {
        match s.back_color {
            Some(c) => luminance_below(c.r, c.g, c.b),
            None => false,
        }
    }
}

fn rounds_below_exec(r: u8, g: u8, b: u8) -> (x: bool)
    ensures
        x == rounds_below(r, g, b),
{
    match (r, g, b) {
        (8, 166, 19) | (12, 156, 60) | (23, 157, 26) | (38, 148, 33) | (53, 139, 40) | (57, 129, 81) | (64, 140, 6) | (72, 120, 88) | (79, 131, 13) | (80, 100, 170) | (87, 111, 95) | (94, 122, 20) | (95, 91, 177) | (102, 102, 102) | (113, 103, 68) | (117, 93, 109) | (128, 94, 75) | (143, 85, 82) | (154, 86, 48) | (158, 76, 89) | (159, 45, 246) | (169, 77, 55) | (174, 36, 253) | (177, 57, 137) | (184, 68, 62) | (199, 59, 69) | (200, 28, 226) | (210, 60, 35) | (215, 19, 233) | (225, 51, 42) | (240, 42, 49) | (251, 43, 15) | (255, 33, 56) => true,
        _ => false,
    }
}

pub fn luminance_is_below(r: u8, g: u8, b: u8) -> (x: bool)
    ensures
        x == luminance_below(r, g, b),
{
    let s: u32 = 299 * (r as u32) + 587 * (g as u32) + 114 * (b as u32);
    s < 102000 || (s == 102000 && rounds_below_exec(r, g, b))
}

fn opt_string(o: Option<String>) -> (r: Option<String>)
    ensures
        opt_text(r) == opt_text(o),
{
    o
}

fn number_in(d: &YamlMap, k: &str) -> (r: Option<YamlNumber>)
    ensures
        r == number_at(d@, k@),
{
    match d.get(&key(k)) {
        Some(v) => value_number(v),
        None => None,
    }
}

fn value_number(v: &YamlValue) -> (r: Option<YamlNumber>)
    ensures
        r == number_of(v@),
    decreases v,
{
    match v {
        YamlValue::Number(n) => Some(*n),
        YamlValue::Tagged(_, b) => value_number(b),
        _ => None,
    }
}

/// The color an integer writes.
pub fn color_from_int(i: i64) -> (c: Option<RimeColor>)
    ensures
        c == color_of_int(i),
{
    if 0 <= i && i <= 0xFF_FFFF {
        Some(RimeColor { r: (i % 256) as u8, g: ((i / 256) % 256) as u8, b: ((i / 65536) % 256) as u8, a: 255 })
    } else if 0xFF_FFFF < i && i <= 0xFFFF_FFFF {
        Some(
            RimeColor {
                r: (i % 256) as u8,
                g: ((i / 256) % 256) as u8,
                b: ((i / 65536) % 256) as u8,
                a: ((i / 16777216) % 256) as u8,
            },
        )
    } else {
        None
    }
}

/// The color under `k` of a scheme mapping.
pub fn parse_color(d: &YamlMap, k: &str) -> (c: Option<RimeColor>)
    ensures
        c == color_at(d@, k@),
{
    match d.get(&key(k)) {
        Some(v) => match v.as_str() {
            Some(s) => RimeColor::from_hex(s.as_str()),
            None => match v.as_i64() {
                Some(i) => color_from_int(i),
                None => None,
            },
        },
        None => None,
    }
}

fn color_value(c: Option<RimeColor>) -> (v: Option<YamlValue>)
    ensures
        opt_view(v) == color_node(c),
{
    match c {
        Some(x) => Some(string_node(x.to_hex())),
        None => None,
    }
}

fn bool_value(b: Option<bool>) -> (v: Option<YamlValue>)
    ensures
        opt_view(v) == bool_field(b),
{
    match b {
        Some(x) => Some(bool_node(x)),
        None => None,
    }
}

fn number_value(n: Option<YamlNumber>) -> (v: Option<YamlValue>)
    ensures
        opt_view(v) == number_field(n),
{
    match n {
        Some(x) => Some(YamlValue::Number(x)),
        None => None,
    }
}

fn text_value(t: &Option<String>) -> (v: Option<YamlValue>)
    ensures
        opt_view(v) == text_field(opt_text(*t)),
{
    match t {
        Some(x) => Some(string_node(x.clone())),
        None => None,
    }
}

/// The model of an optional node.
pub open spec fn opt_view(o: Option<YamlValue>) -> Option<YamlView> {
    match o {
        Some(v) => Some(v@),
        None => None,
    }
}

/// The keys a scheme's fields are written under.
fn scheme_key_list() -> (ks: Vec<String>)
    ensures
        crate::rime::patch::strings_view(ks@) == scheme_keys(),
{
        let mut ks: Vec<String> = Vec::new();
        ks.push(key("author"));
        ks.push(key("color_space"));
        ks.push(key("back_color"));
        ks.push(key("border_color"));
        ks.push(key("text_color"));
        ks.push(key("hilited_text_color"));
        ks.push(key("hilited_back_color"));
        ks.push(key("hilited_candidate_back_color"));
        ks.push(key("candidate_text_color"));
        ks.push(key("hilited_candidate_text_color"));
        ks.push(key("label_color"));
        ks.push(key("hilited_candidate_label_color"));
        ks.push(key("comment_text_color"));
        ks.push(key("hilited_comment_text_color"));
        ks.push(key("preedit_back_color"));
        ks.push(key("candidate_back_color"));
        ks.push(key("translucency"));
        ks.push(key("mutual_exclusive"));
        ks.push(key("shadow_size"));
        ks.push(key("line_spacing"));
        ks.push(key("alpha"));
        ks.push(key("spacing"));
        ks.push(key("candidate_list_layout"));
        ks.push(key("inline_preedit"));
        ks.push(key("candidate_format"));
        ks.push(key("corner_radius"));
        ks.push(key("hilited_corner_radius"));
        ks.push(key("border_width"));
        ks.push(key("border_height"));
        ks.push(key("font_face"));
        ks.push(key("font_point"));
        ks.push(key("label_font_face"));
        ks.push(key("label_font_point"));
        ks.push(key("comment_font_face"));
        ks.push(key("comment_font_point"));
        assert(crate::rime::patch::strings_view(ks@) =~= scheme_keys());
        ks
}

impl RimeColorScheme {
    /// A scheme with nothing set: no name, the `srgb` color space.
    pub fn empty() -> (s: Self)
        ensures
            s.name@ == Seq::<char>::empty(),
            s.author@ == Seq::<char>::empty(),
            s.color_space@ == "srgb"@,
            s.back_color is None,
            s.border_color is None,
            s.text_color is None,
            s.hilited_text_color is None,
            s.hilited_back_color is None,
            s.hilited_candidate_back_color is None,
            s.candidate_text_color is None,
            s.hilited_candidate_text_color is None,
            s.candidate_label_color is None,
            s.hilited_candidate_label_color is None,
            s.comment_text_color is None,
            s.hilited_comment_text_color is None,
            s.preedit_back_color is None,
            s.candidate_back_color is None,
            s.translucency is None,
            s.mutual_exclusive is None,
            s.shadow_size is None,
            s.line_spacing is None,
            s.alpha is None,
            s.spacing is None,
            s.candidate_list_layout is None,
            s.inline_preedit is None,
            s.candidate_format is None,
            s.corner_radius is None,
            s.hilited_corner_radius is None,
            s.border_width is None,
            s.border_height is None,
            s.font_face is None,
            s.font_point is None,
            s.label_font_face is None,
            s.label_font_point is None,
            s.comment_font_face is None,
            s.comment_font_point is None,
    {
        RimeColorScheme {
            name: String::new(),
            author: String::new(),
            color_space: "srgb".to_string(),
            back_color: None,
            border_color: None,
            text_color: None,
            hilited_text_color: None,
            hilited_back_color: None,
            hilited_candidate_back_color: None,
            candidate_text_color: None,
            hilited_candidate_text_color: None,
            candidate_label_color: None,
            hilited_candidate_label_color: None,
            comment_text_color: None,
            hilited_comment_text_color: None,
            preedit_back_color: None,
            candidate_back_color: None,
            translucency: None,
            mutual_exclusive: None,
            shadow_size: None,
            line_spacing: None,
            alpha: None,
            spacing: None,
            candidate_list_layout: None,
            inline_preedit: None,
            candidate_format: None,
            corner_radius: None,
            hilited_corner_radius: None,
            border_width: None,
            border_height: None,
            font_face: None,
            font_point: None,
            label_font_face: None,
            label_font_point: None,
            comment_font_face: None,
            comment_font_point: None,
        }
    }

    /// Reads a scheme from its mapping in `preset_color_schemes`.
    pub fn from_dict(name: String, dict: &YamlMap) -> (s: Self)
        ensures
            scheme_from(s, name@, dict@),
    {
        proof {
            reveal_strlit("");
        }
        let author = match get_string(dict, "author") {
            Some(a) => a,
            None => String::new(),
        };
        let color_space = match get_string(dict, "color_space") {
            Some(c) => c,
            None => "srgb".to_string(),
        };
        RimeColorScheme {
            name,
            author,
            color_space,
            back_color: parse_color(dict, "back_color"),
            border_color: parse_color(dict, "border_color"),
            text_color: parse_color(dict, "text_color"),
            hilited_text_color: parse_color(dict, "hilited_text_color"),
            hilited_back_color: parse_color(dict, "hilited_back_color"),
            hilited_candidate_back_color: parse_color(dict, "hilited_candidate_back_color"),
            candidate_text_color: parse_color(dict, "candidate_text_color"),
            hilited_candidate_text_color: parse_color(dict, "hilited_candidate_text_color"),
            candidate_label_color: parse_color(dict, "label_color"),
            hilited_candidate_label_color: parse_color(dict, "hilited_candidate_label_color"),
            comment_text_color: parse_color(dict, "comment_text_color"),
            hilited_comment_text_color: parse_color(dict, "hilited_comment_text_color"),
            preedit_back_color: parse_color(dict, "preedit_back_color"),
            candidate_back_color: parse_color(dict, "candidate_back_color"),
            translucency: get_bool(dict, "translucency"),
            mutual_exclusive: get_bool(dict, "mutual_exclusive"),
            shadow_size: number_in(dict, "shadow_size"),
            line_spacing: number_in(dict, "line_spacing"),
            alpha: number_in(dict, "alpha"),
            spacing: number_in(dict, "spacing"),
            candidate_list_layout: opt_string(get_string(dict, "candidate_list_layout")),
            inline_preedit: get_bool(dict, "inline_preedit"),
            candidate_format: opt_string(get_string(dict, "candidate_format")),
            corner_radius: number_in(dict, "corner_radius"),
            hilited_corner_radius: number_in(dict, "hilited_corner_radius"),
            border_width: number_in(dict, "border_width"),
            border_height: number_in(dict, "border_height"),
            font_face: opt_string(get_string(dict, "font_face")),
            font_point: number_in(dict, "font_point"),
            label_font_face: opt_string(get_string(dict, "label_font_face")),
            label_font_point: number_in(dict, "label_font_point"),
            comment_font_face: opt_string(get_string(dict, "comment_font_face")),
            comment_font_point: number_in(dict, "comment_font_point"),
        }
    }

    /// The nodes of the scheme's fields, in the order of the keys.
    #[verifier::rlimit(40)]
    fn scheme_value_list(&self) -> (vs: Vec<Option<YamlValue>>)
        ensures
            vs@.map_values(|o: Option<YamlValue>| opt_view(o)) == scheme_values(*self),
    {
        let mut vs: Vec<Option<YamlValue>> = Vec::new();
        vs.push(if !self.author.as_str().is_empty() {
            Some(string_node(self.author.clone()))
        } else {
            None
        });
        vs.push(if self.color_space != "srgb".to_string() {
            Some(string_node(self.color_space.clone()))
        } else {
            None
        });
        vs.push(color_value(self.back_color));
        vs.push(color_value(self.border_color));
        vs.push(color_value(self.text_color));
        vs.push(color_value(self.hilited_text_color));
        vs.push(color_value(self.hilited_back_color));
        vs.push(color_value(self.hilited_candidate_back_color));
        vs.push(color_value(self.candidate_text_color));
        vs.push(color_value(self.hilited_candidate_text_color));
        vs.push(color_value(self.candidate_label_color));
        vs.push(color_value(self.hilited_candidate_label_color));
        vs.push(color_value(self.comment_text_color));
        vs.push(color_value(self.hilited_comment_text_color));
        vs.push(color_value(self.preedit_back_color));
        vs.push(color_value(self.candidate_back_color));
        vs.push(bool_value(self.translucency));
        vs.push(bool_value(self.mutual_exclusive));
        vs.push(number_value(self.shadow_size));
        vs.push(number_value(self.line_spacing));
        vs.push(number_value(self.alpha));
        vs.push(number_value(self.spacing));
        vs.push(text_value(&self.candidate_list_layout));
        vs.push(bool_value(self.inline_preedit));
        vs.push(text_value(&self.candidate_format));
        vs.push(number_value(self.corner_radius));
        vs.push(number_value(self.hilited_corner_radius));
        vs.push(number_value(self.border_width));
        vs.push(number_value(self.border_height));
        vs.push(text_value(&self.font_face));
        vs.push(number_value(self.font_point));
        vs.push(text_value(&self.label_font_face));
        vs.push(number_value(self.label_font_point));
        vs.push(text_value(&self.comment_font_face));
        vs.push(number_value(self.comment_font_point));
        assert(vs@.map_values(|o: Option<YamlValue>| opt_view(o)) =~= scheme_values(*self));
        vs
    }

    /// The mapping the scheme is written as.
    pub fn to_dict(&self) -> (v: YamlValue)
        ensures
            v@ == YamlView::Mapping(scheme_entries(*self)),
    {
        let mut dict = YamlMap::new();
        dict.insert(key("name"), string_node(self.name.clone()));
        proof {
            crate::rime::yaml::lemma_find_key(Seq::<(Seq<char>, YamlView)>::empty(), "name"@);
        }
        let ghost m0 = seq![("name"@, YamlView::Str(self.name@))];
        assert(dict@ =~= m0);
        let ks = scheme_key_list();
        let vs = self.scheme_value_list();
        let ghost kv = scheme_keys();
        let ghost vv = scheme_values(*self);
        assert(kv.len() == 35 && vv.len() == 35);
        assert(ks@.len() == crate::rime::patch::strings_view(ks@).len());
        assert(vs@.len() == vs@.map_values(|o: Option<YamlValue>| opt_view(o)).len());
        let n = ks.len();
        let mut i: usize = 0;
        while i < n
            invariant
                n == ks@.len(),
                n == vs@.len(),
                i <= n,
                crate::rime::patch::strings_view(ks@) == kv,
                vs@.map_values(|o: Option<YamlValue>| opt_view(o)) == vv,
                dict@ == inserted_fields(m0, kv, vv, i as nat),
            decreases n - i,
        {
            assert(kv[i as int] == ks@[i as int]@);
            assert(vv[i as int] == opt_view(vs@[i as int]));
            match &vs[i] {
                Some(v) => {
                    dict.insert(ks[i].clone(), v.deep_copy());
                },
                None => {},
            }
            i = i + 1;
        }
        YamlValue::Mapping(dict)
    }

    /// Whether the scheme is for a dark appearance.
    pub fn is_dark(&self) -> (d: bool)
        ensures
            d == scheme_is_dark(*self),
    {
        let lower = to_lowercase(self.name.as_str());
        if text_contains(lower.as_str(), "dark") {
            return true;
        }
        match self.back_color {
            Some(c) => luminance_is_below(c.r, c.g, c.b),
            None => false,
        }
    }
}


proof fn lemma_inserted_other(m: Entries, ks: Seq<Seq<char>>, vs: Seq<Option<YamlView>>, n: nat, k: Seq<char>)
    requires
        n <= ks.len(),
        n <= vs.len(),
        forall|i: int| 0 <= i < n ==> ks[i] != k,
    ensures
        map_get(inserted_fields(m, ks, vs, n), k) == map_get(m, k),
    decreases n,
{
    if n > 0 {
        lemma_inserted_other(m, ks, vs, (n - 1) as nat, k);
        match vs[n - 1] {
            Some(v) => crate::rime::yaml::lemma_insert_other(inserted_fields(m, ks, vs, (n - 1) as nat), ks[n - 1], v, k),
            None => {},
        }
    }
}

proof fn lemma_inserted_get(m: Entries, ks: Seq<Seq<char>>, vs: Seq<Option<YamlView>>, n: nat, j: int)
    requires
        n <= ks.len(),
        n <= vs.len(),
        0 <= j < n,
        forall|a: int, b: int| 0 <= a < n && 0 <= b < n && a != b ==> ks[a] != ks[b],
    ensures
        map_get(inserted_fields(m, ks, vs, n), ks[j]) == match vs[j] {
            Some(v) => Some(v),
            None => map_get(m, ks[j]),
        },
    decreases n,
{
    if j < n - 1 {
        lemma_inserted_get(m, ks, vs, (n - 1) as nat, j);
        match vs[n - 1] {
            Some(v) => crate::rime::yaml::lemma_insert_other(inserted_fields(m, ks, vs, (n - 1) as nat), ks[n - 1], v, ks[j]),
            None => {},
        }
    } else {
        lemma_inserted_other(m, ks, vs, (n - 1) as nat, ks[j]);
        match vs[n - 1] {
            Some(v) => crate::rime::yaml::lemma_insert_get(inserted_fields(m, ks, vs, (n - 1) as nat), ks[n - 1], v),
            None => {},
        }
    }
}

/// The character at `i`, or a space outside the text.
pub open spec fn char_or_space(k: Seq<char>, i: int) -> char {
    if 0 <= i < k.len() {
        k[i]
    } else {
        ' '
    }
}

/// A few features of a key that tell the scheme keys apart.
pub open spec fn key_sig(k: Seq<char>) -> (int, char, char, char) {
    (k.len() as int, char_or_space(k, 0), char_or_space(k, k.len() - 10), char_or_space(k, k.len() - 1))
}

pub open spec fn scheme_key_sigs() -> Seq<(int, char, char, char)> {
    seq![(6int, 'a', ' ', 'r'), (11int, 'c', 'o', 'e'), (10int, 'b', 'b', 'r'), (12int, 'b', 'r', 'r'), (10int, 't', 't', 'r'), (18int, 'h', 't', 'r'), (18int, 'h', 'b', 'r'), (28int, 'h', 'b', 'r'), (20int, 'c', 't', 'r'), (28int, 'h', 't', 'r'), (11int, 'l', 'a', 'r'), (29int, 'h', 'a', 'r'), (18int, 'c', 't', 'r'), (26int, 'h', 't', 'r'), (18int, 'p', 'b', 'r'), (20int, 'c', 'b', 'r'), (12int, 't', 'a', 'y'), (16int, 'm', '_', 'e'), (11int, 's', 'h', 'e'), (12int, 'l', 'n', 'g'), (5int, 'a', ' ', 'a'), (7int, 's', ' ', 'g'), (21int, 'c', 'i', 't'), (14int, 'i', 'n', 't'), (16int, 'c', 'a', 't'), (13int, 'c', 'n', 's'), (21int, 'h', 'n', 's'), (12int, 'b', 'r', 'h'), (13int, 'b', 'd', 't'), (9int, 'f', ' ', 'e'), (10int, 'f', 'f', 't'), (15int, 'l', '_', 'e'), (16int, 'l', 'f', 't'), (17int, 'c', '_', 'e'), (18int, 'c', 'f', 't')]
}

/// The keys are all different, and none is `name`.
#[verifier::rlimit(100)]
proof fn lemma_scheme_keys_distinct()
    ensures
        scheme_keys().len() == 35,
        forall|a: int, b: int| 0 <= a < 35 && 0 <= b < 35 && a != b ==> scheme_keys()[a] != scheme_keys()[b],
        forall|a: int| 0 <= a < 35 ==> scheme_keys()[a] != "name"@,
{
    reveal_strlit("author");
    reveal_strlit("color_space");
    reveal_strlit("back_color");
    reveal_strlit("border_color");
    reveal_strlit("text_color");
    reveal_strlit("hilited_text_color");
    reveal_strlit("hilited_back_color");
    reveal_strlit("hilited_candidate_back_color");
    reveal_strlit("candidate_text_color");
    reveal_strlit("hilited_candidate_text_color");
    reveal_strlit("label_color");
    reveal_strlit("hilited_candidate_label_color");
    reveal_strlit("comment_text_color");
    reveal_strlit("hilited_comment_text_color");
    reveal_strlit("preedit_back_color");
    reveal_strlit("candidate_back_color");
    reveal_strlit("translucency");
    reveal_strlit("mutual_exclusive");
    reveal_strlit("shadow_size");
    reveal_strlit("line_spacing");
    reveal_strlit("alpha");
    reveal_strlit("spacing");
    reveal_strlit("candidate_list_layout");
    reveal_strlit("inline_preedit");
    reveal_strlit("candidate_format");
    reveal_strlit("corner_radius");
    reveal_strlit("hilited_corner_radius");
    reveal_strlit("border_width");
    reveal_strlit("border_height");
    reveal_strlit("font_face");
    reveal_strlit("font_point");
    reveal_strlit("label_font_face");
    reveal_strlit("label_font_point");
    reveal_strlit("comment_font_face");
    reveal_strlit("comment_font_point");
    reveal_strlit("name");
    let ks = scheme_keys();
    let sg = scheme_key_sigs();
    assert(key_sig(ks[0]) == sg[0]);
    assert(key_sig(ks[1]) == sg[1]);
    assert(key_sig(ks[2]) == sg[2]);
    assert(key_sig(ks[3]) == sg[3]);
    assert(key_sig(ks[4]) == sg[4]);
    assert(key_sig(ks[5]) == sg[5]);
    assert(key_sig(ks[6]) == sg[6]);
    assert(key_sig(ks[7]) == sg[7]);
    assert(key_sig(ks[8]) == sg[8]);
    assert(key_sig(ks[9]) == sg[9]);
    assert(key_sig(ks[10]) == sg[10]);
    assert(key_sig(ks[11]) == sg[11]);
    assert(key_sig(ks[12]) == sg[12]);
    assert(key_sig(ks[13]) == sg[13]);
    assert(key_sig(ks[14]) == sg[14]);
    assert(key_sig(ks[15]) == sg[15]);
    assert(key_sig(ks[16]) == sg[16]);
    assert(key_sig(ks[17]) == sg[17]);
    assert(key_sig(ks[18]) == sg[18]);
    assert(key_sig(ks[19]) == sg[19]);
    assert(key_sig(ks[20]) == sg[20]);
    assert(key_sig(ks[21]) == sg[21]);
    assert(key_sig(ks[22]) == sg[22]);
    assert(key_sig(ks[23]) == sg[23]);
    assert(key_sig(ks[24]) == sg[24]);
    assert(key_sig(ks[25]) == sg[25]);
    assert(key_sig(ks[26]) == sg[26]);
    assert(key_sig(ks[27]) == sg[27]);
    assert(key_sig(ks[28]) == sg[28]);
    assert(key_sig(ks[29]) == sg[29]);
    assert(key_sig(ks[30]) == sg[30]);
    assert(key_sig(ks[31]) == sg[31]);
    assert(key_sig(ks[32]) == sg[32]);
    assert(key_sig(ks[33]) == sg[33]);
    assert(key_sig(ks[34]) == sg[34]);
    assert(key_sig("name"@) == (4int, 'n', ' ', 'e'));
    assert forall|a: int, b: int| 0 <= a < 35 && 0 <= b < 35 && a != b implies sg[a] != sg[b] by {
        assert(sg[0] == (6int, 'a', ' ', 'r'));
        assert(sg[1] == (11int, 'c', 'o', 'e'));
        assert(sg[2] == (10int, 'b', 'b', 'r'));
        assert(sg[3] == (12int, 'b', 'r', 'r'));
        assert(sg[4] == (10int, 't', 't', 'r'));
        assert(sg[5] == (18int, 'h', 't', 'r'));
        assert(sg[6] == (18int, 'h', 'b', 'r'));
        assert(sg[7] == (28int, 'h', 'b', 'r'));
        assert(sg[8] == (20int, 'c', 't', 'r'));
        assert(sg[9] == (28int, 'h', 't', 'r'));
        assert(sg[10] == (11int, 'l', 'a', 'r'));
        assert(sg[11] == (29int, 'h', 'a', 'r'));
        assert(sg[12] == (18int, 'c', 't', 'r'));
        assert(sg[13] == (26int, 'h', 't', 'r'));
        assert(sg[14] == (18int, 'p', 'b', 'r'));
        assert(sg[15] == (20int, 'c', 'b', 'r'));
        assert(sg[16] == (12int, 't', 'a', 'y'));
        assert(sg[17] == (16int, 'm', '_', 'e'));
        assert(sg[18] == (11int, 's', 'h', 'e'));
        assert(sg[19] == (12int, 'l', 'n', 'g'));
        assert(sg[20] == (5int, 'a', ' ', 'a'));
        assert(sg[21] == (7int, 's', ' ', 'g'));
        assert(sg[22] == (21int, 'c', 'i', 't'));
        assert(sg[23] == (14int, 'i', 'n', 't'));
        assert(sg[24] == (16int, 'c', 'a', 't'));
        assert(sg[25] == (13int, 'c', 'n', 's'));
        assert(sg[26] == (21int, 'h', 'n', 's'));
        assert(sg[27] == (12int, 'b', 'r', 'h'));
        assert(sg[28] == (13int, 'b', 'd', 't'));
        assert(sg[29] == (9int, 'f', ' ', 'e'));
        assert(sg[30] == (10int, 'f', 'f', 't'));
        assert(sg[31] == (15int, 'l', '_', 'e'));
        assert(sg[32] == (16int, 'l', 'f', 't'));
        assert(sg[33] == (17int, 'c', '_', 'e'));
        assert(sg[34] == (18int, 'c', 'f', 't'));
    }
    assert forall|a: int| 0 <= a < 35 implies sg[a] != (4int, 'n', ' ', 'e') by {
        assert(sg[0] == (6int, 'a', ' ', 'r'));
        assert(sg[1] == (11int, 'c', 'o', 'e'));
        assert(sg[2] == (10int, 'b', 'b', 'r'));
        assert(sg[3] == (12int, 'b', 'r', 'r'));
        assert(sg[4] == (10int, 't', 't', 'r'));
        assert(sg[5] == (18int, 'h', 't', 'r'));
        assert(sg[6] == (18int, 'h', 'b', 'r'));
        assert(sg[7] == (28int, 'h', 'b', 'r'));
        assert(sg[8] == (20int, 'c', 't', 'r'));
        assert(sg[9] == (28int, 'h', 't', 'r'));
        assert(sg[10] == (11int, 'l', 'a', 'r'));
        assert(sg[11] == (29int, 'h', 'a', 'r'));
        assert(sg[12] == (18int, 'c', 't', 'r'));
        assert(sg[13] == (26int, 'h', 't', 'r'));
        assert(sg[14] == (18int, 'p', 'b', 'r'));
        assert(sg[15] == (20int, 'c', 'b', 'r'));
        assert(sg[16] == (12int, 't', 'a', 'y'));
        assert(sg[17] == (16int, 'm', '_', 'e'));
        assert(sg[18] == (11int, 's', 'h', 'e'));
        assert(sg[19] == (12int, 'l', 'n', 'g'));
        assert(sg[20] == (5int, 'a', ' ', 'a'));
        assert(sg[21] == (7int, 's', ' ', 'g'));
        assert(sg[22] == (21int, 'c', 'i', 't'));
        assert(sg[23] == (14int, 'i', 'n', 't'));
        assert(sg[24] == (16int, 'c', 'a', 't'));
        assert(sg[25] == (13int, 'c', 'n', 's'));
        assert(sg[26] == (21int, 'h', 'n', 's'));
        assert(sg[27] == (12int, 'b', 'r', 'h'));
        assert(sg[28] == (13int, 'b', 'd', 't'));
        assert(sg[29] == (9int, 'f', ' ', 'e'));
        assert(sg[30] == (10int, 'f', 'f', 't'));
        assert(sg[31] == (15int, 'l', '_', 'e'));
        assert(sg[32] == (16int, 'l', 'f', 't'));
        assert(sg[33] == (17int, 'c', '_', 'e'));
        assert(sg[34] == (18int, 'c', 'f', 't'));
    }
}

/// A color scheme that is written reads back as it was (its name is given
/// when it is read).
pub proof fn scheme_reads_back(s: RimeColorScheme)
    ensures
        scheme_from(s, s.name@, scheme_entries(s)),
{
    lemma_scheme_keys_distinct();
    reveal_strlit("name");
    reveal_strlit("srgb");
    let ks = scheme_keys();
    let vs = scheme_values(s);
    let m0 = seq![("name"@, YamlView::Str(s.name@))];
    assert forall|k: Seq<char>| k != "name"@ implies #[trigger] map_get(m0, k) == None::<YamlView> by {
        crate::rime::yaml::lemma_find_key(m0, k);
        crate::rime::yaml::lemma_find_key(m0.drop_first(), k);
    }
    assert forall|j: int| 0 <= j < 35 implies #[trigger] map_get(scheme_entries(s), ks[j]) == match vs[j] {
        Some(v) => Some(v),
        None => None::<YamlView>,
    } by {
        lemma_inserted_get(m0, ks, vs, 35, j);
    }
    if s.author@.len() == 0 {
        assert(s.author@ =~= Seq::<char>::empty());
    }
    assert forall|c: RimeColor| #[trigger] color_of_hex(hex_of_color(c)) == Some(c) by {
        crate::rime::color::hex_roundtrip(c);
    }
}


/// A color written as a YAML integer is read by its bytes, lowest first:
/// `0xBBGGRR` gives red, green and blue with full opacity, and
/// `0xAABBGGRR` (above `0xFFFFFF`) also gives the alpha; integers past
/// `0xFFFFFFFF` give no color.
pub proof fn integer_colors_read_by_bytes(d: Entries, k: Seq<char>, n: u64)
    requires
        map_get(d, k) == Some(YamlView::Number(YamlNumber::PosInt(n))),
    ensures
        n <= 0xFF_FFFF ==> color_at(d, k) == Some(
            RimeColor { r: (n % 256) as u8, g: ((n / 256) % 256) as u8, b: ((n / 65536) % 256) as u8, a: 255u8 },
        ),
        0xFF_FFFF < n <= 0xFFFF_FFFF ==> color_at(d, k) == Some(
            RimeColor {
                r: (n % 256) as u8,
                g: ((n / 256) % 256) as u8,
                b: ((n / 65536) % 256) as u8,
                a: (n / 16777216) as u8,
            },
        ),
        n > 0xFFFF_FFFF ==> color_at(d, k) is None,
{
    let v = YamlView::Number(YamlNumber::PosInt(n));
    assert(crate::rime::yaml::str_of(v) is None);
    if n <= 0x7FFF_FFFF_FFFF_FFFF {
        assert(i64_of(v) == Some(n as i64));
    } else {
        assert(i64_of(v) is None);
    }
    if 0xFF_FFFF < n <= 0xFFFF_FFFF {
        assert((n / 16777216) % 256 == n / 16777216);
    }
}

} // verus!
