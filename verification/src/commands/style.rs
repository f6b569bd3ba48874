use vstd::prelude::*;

use crate::rime::color_scheme::{RimeColorScheme, color_at, luminance_below, scheme_entries, scheme_from, scheme_is_dark};
use crate::rime::text::lowercase;
use crate::rime::config::{doc_get, get_in_document, get_mapping, key, mapping_at, string_at};
use crate::rime::edit::{bool_node, put_section, rewrap, section_of, str_node, string_node, take_section, with_section};
use crate::rime::patch::{merge, merged};
use crate::rime::style::RimeStyle;
use crate::rime::text::contains_text;
use crate::rime::yaml::{Entries, YamlMap, YamlValue, YamlView, map_get, map_insert, map_remove, mapping_of};

verus! {

/// The style with the color schemes, split by appearance, and the schemes
/// selected for each appearance.
pub struct StyleData {
    pub style: RimeStyle,
    pub light_schemes: Vec<(String, RimeColorScheme)>,
    pub dark_schemes: Vec<(String, RimeColorScheme)>,
    pub selected_light: String,
    pub selected_dark: String,
}

/// The style configuration in force: the base document as a mapping (empty
/// when it is none) with the custom document's `patch` merged in.
pub open spec fn style_merged(base: YamlView, custom: YamlView) -> Entries {
    let b = match mapping_of(base) {
        Some(m) => m,
        None => Seq::empty(),
    };
    match doc_get(custom, "patch"@) {
        Some(p) => match mapping_of(p) {
            Some(pm) => merged(b, pm),
            None => b,
        },
        None => b,
    }
}

/// The style configuration in force, from the base and the custom documents
/// (each an empty mapping when its file could not be read).
pub fn style_config(base: &YamlValue, custom: &YamlValue) -> (m: YamlMap)
    ensures
        m@ == style_merged(base@, custom@),
{
    let b = match base.as_mapping() {
        Some(m) => m.deep_copy(),
        None => YamlMap::new(),
    };
    match get_in_document(custom, "patch") {
        Some(p) => match p.as_mapping() {
            Some(pm) => merge(&b, pm),
            None => b,
        },
        None => b,
    }
}

/// Whether the scheme named `name` with mapping `d` is dark.
pub open spec fn entry_is_dark(name: Seq<char>, d: Entries) -> bool {
    if contains_text(lowercase(name), "dark"@) {
        true
    } else {
        match color_at(d, "back_color"@) {
            Some(c) => luminance_below(c.r, c.g, c.b),
            None => false,
        }
    }
}

/// The positions of the entries of `schemes` that are color schemes (their
/// value is a mapping) of the given appearance, in order.
pub open spec fn scheme_positions(schemes: Entries, dark: bool) -> Seq<int>
    decreases schemes.len(),
{
    if schemes.len() == 0 {
        Seq::empty()
    } else {
        let rest = scheme_positions(schemes.drop_last(), dark);
        match mapping_of(schemes.last().1) {
            Some(d) => if entry_is_dark(schemes.last().0, d) == dark {
                rest.push(schemes.len() - 1)
            } else {
                rest
            },
            None => rest,
        }
    }
}

/// `list` holds, in order, the schemes of `schemes` at the positions.
pub open spec fn lists_schemes(list: Seq<(String, RimeColorScheme)>, schemes: Entries, pos: Seq<int>) -> bool {
    &&& list.len() == pos.len()
    &&& forall|i: int|
        0 <= i < list.len() ==> {
            let e = schemes[#[trigger] pos[i]];
            &&& list[i].0@ == e.0
            &&& mapping_of(e.1) matches Some(d) && scheme_from(list[i].1, e.0, d)
        }
}

proof fn lemma_positions(schemes: Entries, dark: bool)
    ensures
        forall|i: int|
            0 <= i < scheme_positions(schemes, dark).len() ==> 0 <= #[trigger] scheme_positions(schemes, dark)[i] < schemes.len(),
    decreases schemes.len(),
{
    if schemes.len() > 0 {
        lemma_positions(schemes.drop_last(), dark);
        let rest = scheme_positions(schemes.drop_last(), dark);
        let r = scheme_positions(schemes, dark);
        assert forall|i: int| 0 <= i < r.len() implies 0 <= #[trigger] r[i] < schemes.len() by {
            if i < rest.len() {
                assert(r[i] == rest[i]);
            }
        }
    }
}

/// The style data: the style read by the caller from `style`, with the color
/// schemes of `preset_color_schemes` split into light and dark ones.
pub fn get_style_data(style: RimeStyle, merged: &YamlMap) -> (r: StyleData)
    ensures
        lists_schemes(r.light_schemes@, mapping_at(merged@, "preset_color_schemes"@), scheme_positions(mapping_at(merged@, "preset_color_schemes"@), false)),
        lists_schemes(r.dark_schemes@, mapping_at(merged@, "preset_color_schemes"@), scheme_positions(mapping_at(merged@, "preset_color_schemes"@), true)),
        r.selected_light@ == style.color_scheme_name@,
        r.selected_dark@ == style.color_scheme_dark_name@,
        r.style == style,
{
    let schemes = get_mapping(merged, "preset_color_schemes");
    let ghost m = schemes@;
    let mut light: Vec<(String, RimeColorScheme)> = Vec::new();
    let mut dark: Vec<(String, RimeColorScheme)> = Vec::new();
    let n = schemes.len();
    let mut i: usize = 0;
    while i < n
        invariant
            n == m.len(),
            m == schemes@,
            i <= n,
            lists_schemes(light@, m, scheme_positions(m.take(i as int), false)),
            lists_schemes(dark@, m, scheme_positions(m.take(i as int), true)),
        decreases n - i,
    {
        let ghost pl = scheme_positions(m.take(i as int), false);
        let ghost pd = scheme_positions(m.take(i as int), true);
        proof {
            lemma_positions(m.take(i as int), false);
            lemma_positions(m.take(i as int), true);
            assert(m.take(i + 1).drop_last() =~= m.take(i as int));
            assert(m.take(i + 1).last() == m[i as int]);
        }
        let name = schemes.key_at(i);
        let value = schemes.value_at_index(i);
        match value.as_mapping() {
            Some(d) => {
                let scheme = RimeColorScheme::from_dict(name.clone(), d);
                let is_dark = scheme.is_dark();
                assert(is_dark == entry_is_dark(name@, d@));
                if is_dark {
                    dark.push((name.clone(), scheme));
                    assert(scheme_positions(m.take(i + 1), true) == pd.push(i as int));
                    assert forall|j: int| 0 <= j < dark@.len() implies {
                        let e = m[#[trigger] scheme_positions(m.take(i + 1), true)[j]];
                        &&& dark@[j].0@ == e.0
                        &&& mapping_of(e.1) matches Some(d) && scheme_from(dark@[j].1, e.0, d)
                    } by {
                        if j < pd.len() {
                            assert(scheme_positions(m.take(i + 1), true)[j] == pd[j]);
                        }
                    }
                } else {
                    light.push((name.clone(), scheme));
                    assert(scheme_positions(m.take(i + 1), false) == pl.push(i as int));
                    assert forall|j: int| 0 <= j < light@.len() implies {
                        let e = m[#[trigger] scheme_positions(m.take(i + 1), false)[j]];
                        &&& light@[j].0@ == e.0
                        &&& mapping_of(e.1) matches Some(d) && scheme_from(light@[j].1, e.0, d)
                    } by {
                        if j < pl.len() {
                            assert(scheme_positions(m.take(i + 1), false)[j] == pl[j]);
                        }
                    }
                }
            },
            None => {},
        }
        i = i + 1;
    }
    assert(m.take(n as int) =~= m);
    let selected_light = style.color_scheme_name.clone();
    let selected_dark = style.color_scheme_dark_name.clone();
    StyleData { style, light_schemes: light, dark_schemes: dark, selected_light, selected_dark }
}

// ---------------------------------------------------------------------------
// Writing the style
// ---------------------------------------------------------------------------

/// The style section with the style written in: every field, the font faces
/// only when not empty.
pub open spec fn style_section_with(m: Entries, s: RimeStyle) -> Entries {
    let m = m;
    let m = map_insert(m, "color_scheme"@, YamlView::Str(s.color_scheme_name@));
    let m = map_insert(m, "color_scheme_dark"@, YamlView::Str(s.color_scheme_dark_name@));
    let m = map_insert(m, "status_message_type"@, YamlView::Str(s.status_message_type@));
    let m = map_insert(m, "candidate_format"@, YamlView::Str(s.candidate_format@));
    let m = map_insert(m, "text_orientation"@, YamlView::Str(s.text_orientation@));
    let m = map_insert(m, "inline_preedit"@, YamlView::Bool(s.inline_preedit));
    let m = map_insert(m, "inline_candidate"@, YamlView::Bool(s.inline_candidate));
    let m = map_insert(m, "translucency"@, YamlView::Bool(s.translucency));
    let m = map_insert(m, "mutual_exclusive"@, YamlView::Bool(s.mutual_exclusive));
    let m = map_insert(m, "memorize_size"@, YamlView::Bool(s.memorize_size));
    let m = map_insert(m, "show_paging"@, YamlView::Bool(s.show_paging));
    let m = map_insert(m, "candidate_list_layout"@, YamlView::Str(s.candidate_list_layout@));
    let m = map_insert(m, "alpha"@, YamlView::Number(s.alpha));
    let m = map_insert(m, "corner_radius"@, YamlView::Number(s.corner_radius));
    let m = map_insert(m, "hilited_corner_radius"@, YamlView::Number(s.hilited_corner_radius));
    let m = map_insert(m, "border_height"@, YamlView::Number(s.border_height));
    let m = map_insert(m, "border_width"@, YamlView::Number(s.border_width));
    let m = map_insert(m, "line_spacing"@, YamlView::Number(s.line_spacing));
    let m = map_insert(m, "spacing"@, YamlView::Number(s.spacing));
    let m = map_insert(m, "shadow_size"@, YamlView::Number(s.shadow_size));
    let m = map_insert(m, "font_point"@, YamlView::Number(s.font_point));
    let m = map_insert(m, "label_font_point"@, YamlView::Number(s.label_font_point));
    let m = map_insert(m, "comment_font_point"@, YamlView::Number(s.comment_font_point));
    let m = if s.font_face@.len() > 0 { map_insert(m, "font_face"@, YamlView::Str(s.font_face@)) } else { m };
    let m = if s.label_font_face@.len() > 0 { map_insert(m, "label_font_face"@, YamlView::Str(s.label_font_face@)) } else { m };
    let m = if s.comment_font_face@.len() > 0 { map_insert(m, "comment_font_face"@, YamlView::Str(s.comment_font_face@)) } else { m };
    m
}

/// The patch with the style written into `style` (a missing section is
/// added), or the message when `style` is no mapping.
pub open spec fn saved_style(patch: Entries, s: RimeStyle) -> Result<Entries, Seq<char>> {
    match section_of(patch, "style"@) {
        None => Err("style is not a mapping"@),
        Some(st) => Ok(with_section(patch, "style"@, style_section_with(st, s))),
    }
}

/// Writes the style into the style patch. On an error the patch is left as
/// it was.
pub fn save_style(patch: &mut YamlMap, new_style: RimeStyle) -> (r: Result<(), String>)
    ensures
        match saved_style(old(patch)@, new_style) {
            Ok(p) => r is Ok && final(patch)@ == p,
            Err(e) => r matches Err(m) && m@ == e && final(patch)@ == old(patch)@,
        },
{
    let ghost s = new_style;
    let mut st = match take_section(patch, "style") {
        Some(m) => m,
        None => return Err("style is not a mapping".to_string()),
    };
    st.insert(key("color_scheme"), string_node(new_style.color_scheme_name));
    st.insert(key("color_scheme_dark"), string_node(new_style.color_scheme_dark_name));
    st.insert(key("status_message_type"), string_node(new_style.status_message_type));
    st.insert(key("candidate_format"), string_node(new_style.candidate_format));
    st.insert(key("text_orientation"), string_node(new_style.text_orientation));
    st.insert(key("inline_preedit"), bool_node(new_style.inline_preedit));
    st.insert(key("inline_candidate"), bool_node(new_style.inline_candidate));
    st.insert(key("translucency"), bool_node(new_style.translucency));
    st.insert(key("mutual_exclusive"), bool_node(new_style.mutual_exclusive));
    st.insert(key("memorize_size"), bool_node(new_style.memorize_size));
    st.insert(key("show_paging"), bool_node(new_style.show_paging));
    st.insert(key("candidate_list_layout"), string_node(new_style.candidate_list_layout));
    st.insert(key("alpha"), YamlValue::Number(new_style.alpha));
    st.insert(key("corner_radius"), YamlValue::Number(new_style.corner_radius));
    st.insert(key("hilited_corner_radius"), YamlValue::Number(new_style.hilited_corner_radius));
    st.insert(key("border_height"), YamlValue::Number(new_style.border_height));
    st.insert(key("border_width"), YamlValue::Number(new_style.border_width));
    st.insert(key("line_spacing"), YamlValue::Number(new_style.line_spacing));
    st.insert(key("spacing"), YamlValue::Number(new_style.spacing));
    st.insert(key("shadow_size"), YamlValue::Number(new_style.shadow_size));
    st.insert(key("font_point"), YamlValue::Number(new_style.font_point));
    st.insert(key("label_font_point"), YamlValue::Number(new_style.label_font_point));
    st.insert(key("comment_font_point"), YamlValue::Number(new_style.comment_font_point));
    if !new_style.font_face.as_str().is_empty() {
        st.insert(key("font_face"), string_node(new_style.font_face));
    }
    if !new_style.label_font_face.as_str().is_empty() {
        st.insert(key("label_font_face"), string_node(new_style.label_font_face));
    }
    if !new_style.comment_font_face.as_str().is_empty() {
        st.insert(key("comment_font_face"), string_node(new_style.comment_font_face));
    }
    put_section(patch, "style", st);
    Ok(())
}

/// The patch with the selected schemes written into `style`.
pub open spec fn saved_selection(patch: Entries, light: Seq<char>, dark: Seq<char>) -> Result<Entries, Seq<char>> {
    match section_of(patch, "style"@) {
        None => Err("style is not a mapping"@),
        Some(st) => Ok(
            with_section(
                patch,
                "style"@,
                map_insert(map_insert(st, "color_scheme"@, YamlView::Str(light)), "color_scheme_dark"@, YamlView::Str(dark)),
            ),
        ),
    }
}

/// Selects the color schemes of the light and the dark appearance.
pub fn save_selected_schemes(patch: &mut YamlMap, light: String, dark: String) -> (r: Result<(), String>)
    ensures
        match saved_selection(old(patch)@, light@, dark@) {
            Ok(p) => r is Ok && final(patch)@ == p,
            Err(e) => r matches Err(m) && m@ == e && final(patch)@ == old(patch)@,
        },
{
    let mut st = match take_section(patch, "style") {
        Some(m) => m,
        None => return Err("style is not a mapping".to_string()),
    };
    st.insert(key("color_scheme"), string_node(light));
    st.insert(key("color_scheme_dark"), string_node(dark));
    put_section(patch, "style", st);
    Ok(())
}

// ---------------------------------------------------------------------------
// Color schemes
// ---------------------------------------------------------------------------

/// Unicode's Alphabetic or Numeric property (`char::is_alphanumeric`).
pub uninterp spec fn is_alphanumeric(c: char) -> bool;

/// `char::is_alphanumeric`. Claimed of std: the answer is the Unicode
/// property of the character alone; which characters have it is not stated.
#[verifier::external_body]
fn char_is_alphanumeric(c: char) -> (r: bool)
    ensures
        r == is_alphanumeric(c),
{
    c.is_alphanumeric()
}

/// A character a color scheme name may hold.
pub open spec fn name_char_ok(c: char) -> bool {
    is_alphanumeric(c) || c == '_' || c == '-' || c == ' '
}

/// Why a color scheme name is refused: it must be 1 to 64 bytes long and
/// hold only letters, digits, `_`, `-` and spaces.
pub open spec fn scheme_name_error(name: Seq<char>) -> Option<Seq<char>> {
    if name.len() == 0 || vstd::utf8::encode_utf8(name).len() > 64 {
        Some("配色方案名称长度无效"@)
    } else if exists|i: int| 0 <= i < name.len() && !name_char_ok(#[trigger] name[i]) {
        Some("配色方案名称包含无效字符"@)
    } else {
        None
    }
}

pub fn validate_scheme_name(name: &str) -> (r: Result<(), String>)
    ensures
        match scheme_name_error(name@) {
            Some(e) => r matches Err(m) && m@ == e,
            None => r is Ok,
        },
{
    if name.is_empty() || crate::rime::text::utf8_len_exceeds(name, 64) {
        return Err("配色方案名称长度无效".to_string());
    }
    let cs = crate::rime::text::chars_of(name);
    let mut i: usize = 0;
    while i < cs.len()
        invariant
            i <= cs@.len(),
            cs@ == name@,
            !(name@.len() == 0 || vstd::utf8::encode_utf8(name@).len() > 64),
            forall|j: int| 0 <= j < i ==> name_char_ok(#[trigger] cs@[j]),
        decreases cs@.len() - i,
    {
        let c = cs[i];
        if !(char_is_alphanumeric(c) || c == '_' || c == '-' || c == ' ') {
            assert(!name_char_ok(name@[i as int]));
            return Err("配色方案名称包含无效字符".to_string());
        }
        i = i + 1;
    }
    Ok(())
}

/// The patch with a color scheme saved under `name` in
/// `preset_color_schemes` (a missing section is added; a renamed scheme's old
/// entry is removed); unchanged when what is there is no mapping.
pub open spec fn saved_scheme(patch: Entries, name: Seq<char>, scheme: RimeColorScheme, original: Option<Seq<char>>) -> Entries {
    match section_of(patch, "preset_color_schemes"@) {
        Some(m) => {
            let m1 = match original {
                Some(o) => if o != name {
                    map_remove(m, o)
                } else {
                    m
                },
                None => m,
            };
            with_section(patch, "preset_color_schemes"@, map_insert(m1, name, YamlView::Mapping(scheme_entries(scheme))))
        },
        None => patch,
    }
}

/// Saves a color scheme into the style patch, after checking its name.
pub fn save_color_scheme(
    patch: &mut YamlMap,
    name: String,
    scheme: &RimeColorScheme,
    original_name: Option<String>,
) -> (r: Result<(), String>)
    ensures
        match scheme_name_error(name@) {
            Some(e) => r matches Err(m) && m@ == e && final(patch)@ == old(patch)@,
            None => r is Ok && final(patch)@ == saved_scheme(old(patch)@, name@, *scheme, match original_name {
                Some(o) => Some(o@),
                None => None,
            }),
        },
{
    match validate_scheme_name(name.as_str()) {
        Err(e) => return Err(e),
        Ok(()) => {},
    }
    match take_section(patch, "preset_color_schemes") {
        Some(m) => {
            let mut m = m;
            match &original_name {
                Some(o) => if *o != name {
                    m.remove(o);
                },
                None => {},
            }
            m.insert(name, scheme.to_dict());
            put_section(patch, "preset_color_schemes", m);
        },
        None => {},
    }
    Ok(())
}

/// The patch with a color scheme deleted: its entry leaves
/// `preset_color_schemes`, and a selection of it falls back to `native`; or
/// the message when `style` is no mapping.
pub open spec fn deleted_scheme(patch: Entries, name: Seq<char>) -> Result<Entries, Seq<char>> {
    let p1 = match map_get(patch, "preset_color_schemes"@) {
        Some(v) => match mapping_of(v) {
            Some(m) => map_insert(patch, "preset_color_schemes"@, rewrap(v, map_remove(m, name))),
            None => patch,
        },
        None => patch,
    };
    match section_of(p1, "style"@) {
        None => Err("style is not a mapping"@),
        Some(st) => {
            let st1 = if string_at(st, "color_scheme"@) == Some(name) {
                map_insert(st, "color_scheme"@, YamlView::Str("native"@))
            } else {
                st
            };
            let st2 = if string_at(st1, "color_scheme_dark"@) == Some(name) {
                map_insert(st1, "color_scheme_dark"@, YamlView::Str("native"@))
            } else {
                st1
            };
            Ok(with_section(p1, "style"@, st2))
        },
    }
}

fn rewrap_mapping(v: YamlValue, m: YamlMap) -> (r: YamlValue)
    ensures
        r@ == rewrap(v@, m@),
    decreases v,
{
    match v {
        YamlValue::Tagged(t, b) => {
            let inner = rewrap_mapping(*b, m);
            YamlValue::Tagged(t, Box::new(inner))
        },
        _ => YamlValue::Mapping(m),
    }
}

fn names(st: &YamlMap, k: &str, name: &String) -> (r: bool)
    ensures
        r == (string_at(st@, k@) == Some(name@)),
{
    match crate::rime::config::get_string(st, k) {
        Some(s) => s == *name,
        None => false,
    }
}

/// Deletes a color scheme from the style patch. On an error the patch is
/// left as it was.
pub fn delete_color_scheme(patch: &mut YamlMap, name: &String) -> (r: Result<(), String>)
    ensures
        match deleted_scheme(old(patch)@, name@) {
            Ok(p) => r is Ok && final(patch)@ == p,
            Err(e) => r matches Err(m) && m@ == e && final(patch)@ == old(patch)@,
        },
{
    let mut work = patch.deep_copy();
    let pk = key("preset_color_schemes");
    let existing = match work.get(&pk) {
        Some(v) => Some(v.deep_copy()),
        None => None,
    };
    match existing {
        Some(v) => {
            let inner = match v.as_mapping() {
                Some(m) => Some(m.deep_copy()),
                None => None,
            };
            match inner {
                Some(m) => {
                    let mut m = m;
                    m.remove(name);
                    let nv = rewrap_mapping(v, m);
                    work.insert(pk, nv);
                },
                None => {},
            }
        },
        None => {},
    }
    let mut st = match take_section(&work, "style") {
        Some(m) => m,
        None => return Err("style is not a mapping".to_string()),
    };
    if names(&st, "color_scheme", name) {
        st.insert(key("color_scheme"), str_node("native"));
    }
    if names(&st, "color_scheme_dark", name) {
        st.insert(key("color_scheme_dark"), str_node("native"));
    }
    put_section(&mut work, "style", st);
    *patch = work;
    Ok(())
}

/// `m` with every entry of `add` inserted, in order.
pub open spec fn inserted_all(m: Entries, add: Entries) -> Entries
    decreases add.len(),
{
    if add.len() == 0 {
        m
    } else {
        map_insert(inserted_all(m, add.drop_last()), add.last().0, add.last().1)
    }
}

/// The patch with the color schemes of an imported document merged into
/// `preset_color_schemes` (a missing section is added; unchanged when what is
/// there is no mapping), or the message when the document has none.
pub open spec fn imported_schemes(patch: Entries, doc: YamlView) -> Result<Entries, Seq<char>> {
    match doc_get(doc, "preset_color_schemes"@) {
        Some(s) => match mapping_of(s) {
            Some(sm) => Ok(
                match section_of(patch, "preset_color_schemes"@) {
                    Some(m) => with_section(patch, "preset_color_schemes"@, inserted_all(m, sm)),
                    None => patch,
                },
            ),
            None => Err("No color schemes found in file"@),
        },
        None => Err("No color schemes found in file"@),
    }
}

/// Merges the color schemes of a parsed document into the style patch.
pub fn import_color_scheme(patch: &mut YamlMap, doc: &YamlValue) -> (r: Result<(), String>)
    ensures
        match imported_schemes(old(patch)@, doc@) {
            Ok(p) => r is Ok && final(patch)@ == p,
            Err(e) => r matches Err(m) && m@ == e && final(patch)@ == old(patch)@,
        },
{
    let sm = match get_in_document(doc, "preset_color_schemes") {
        Some(s) => match s.as_mapping() {
            Some(sm) => sm,
            None => return Err("No color schemes found in file".to_string()),
        },
        None => return Err("No color schemes found in file".to_string()),
    };
    match take_section(patch, "preset_color_schemes") {
        Some(m) => {
            let mut m = m;
            let n = sm.len();
            let mut i: usize = 0;
            while i < n
                invariant
                    n == sm@.len(),
                    i <= n,
                    section_of(patch@, "preset_color_schemes"@) is Some,
                    m@ == inserted_all(section_of(patch@, "preset_color_schemes"@).unwrap(), sm@.take(i as int)),
                decreases n - i,
            {
                assert(sm@.take(i + 1).drop_last() =~= sm@.take(i as int));
                let k = sm.key_at(i).clone();
                let v = sm.value_at_index(i).deep_copy();
                m.insert(k, v);
                i = i + 1;
            }
            assert(sm@.take(n as int) =~= sm@);
            put_section(patch, "preset_color_schemes", m);
        },
        None => {},
    }
    Ok(())
}

// ---------------------------------------------------------------------------
// Laws of the color scheme list
// ---------------------------------------------------------------------------

/// A saved color scheme is listed under its name, as the mapping it is
/// written as; a renamed scheme is no longer listed under its old name.
pub proof fn saved_scheme_is_listed(patch: Entries, name: Seq<char>, scheme: RimeColorScheme, original: Option<Seq<char>>)
    requires
        section_of(patch, "preset_color_schemes"@) matches Some(m) && crate::rime::yaml::keys_unique(m),
    ensures
        section_of(saved_scheme(patch, name, scheme, original), "preset_color_schemes"@) matches Some(m2) && {
            &&& map_get(m2, name) == Some(YamlView::Mapping(scheme_entries(scheme)))
            &&& match original {
                Some(o) => o != name ==> map_get(m2, o) is None,
                None => true,
            }
        },
{
    let m = section_of(patch, "preset_color_schemes"@).unwrap();
    let v = YamlView::Mapping(scheme_entries(scheme));
    let m1 = match original {
        Some(o) => if o != name {
            map_remove(m, o)
        } else {
            m
        },
        None => m,
    };
    let m2 = map_insert(m1, name, v);
    crate::rime::edit::lemma_with_section_get(patch, "preset_color_schemes"@, m2);
    crate::rime::yaml::lemma_insert_get(m1, name, v);
    if let Some(o) = original {
        if o != name {
            crate::rime::yaml::lemma_remove_unique(m, o);
            crate::rime::yaml::lemma_insert_other(m1, name, v, o);
        }
    }
}

/// A deleted color scheme is no longer listed, and no selection names it
/// (a selection of it falls back to `native`); stated for a scheme other
/// than `native`.
pub proof fn deleted_scheme_is_gone(patch: Entries, name: Seq<char>)
    requires
        name != "native"@,
        crate::rime::yaml::keys_unique(mapping_at(patch, "preset_color_schemes"@)),
        deleted_scheme(patch, name) is Ok,
    ensures
        map_get(mapping_at(deleted_scheme(patch, name)->Ok_0, "preset_color_schemes"@), name) is None,
        string_at(mapping_at(deleted_scheme(patch, name)->Ok_0, "style"@), "color_scheme"@) != Some(name),
        string_at(mapping_at(deleted_scheme(patch, name)->Ok_0, "style"@), "color_scheme_dark"@) != Some(name),
{
    reveal_strlit("preset_color_schemes");
    reveal_strlit("style");
    reveal_strlit("color_scheme");
    reveal_strlit("color_scheme_dark");
    assert("preset_color_schemes"@.len() != "style"@.len());
    assert("color_scheme"@.len() != "color_scheme_dark"@.len());
    let pk = "preset_color_schemes"@;
    let p1 = match map_get(patch, pk) {
        Some(v) => match mapping_of(v) {
            Some(m) => map_insert(patch, pk, rewrap(v, map_remove(m, name))),
            None => patch,
        },
        None => patch,
    };
    match map_get(patch, pk) {
        Some(v) => match mapping_of(v) {
            Some(m) => {
                let r = rewrap(v, map_remove(m, name));
                crate::rime::yaml::lemma_insert_get(patch, pk, r);
                crate::rime::edit::lemma_rewrap_mapping(v, map_remove(m, name));
                crate::rime::yaml::lemma_remove_unique(m, name);
            },
            None => {},
        },
        None => {},
    }
    assert(map_get(mapping_at(p1, pk), name) is None);
    let st = section_of(p1, "style"@).unwrap();
    let st1 = if string_at(st, "color_scheme"@) == Some(name) {
        map_insert(st, "color_scheme"@, YamlView::Str("native"@))
    } else {
        st
    };
    let st2 = if string_at(st1, "color_scheme_dark"@) == Some(name) {
        map_insert(st1, "color_scheme_dark"@, YamlView::Str("native"@))
    } else {
        st1
    };
    if string_at(st, "color_scheme"@) == Some(name) {
        crate::rime::yaml::lemma_insert_get(st, "color_scheme"@, YamlView::Str("native"@));
    }
    if string_at(st1, "color_scheme_dark"@) == Some(name) {
        crate::rime::yaml::lemma_insert_get(st1, "color_scheme_dark"@, YamlView::Str("native"@));
        crate::rime::yaml::lemma_insert_other(st1, "color_scheme_dark"@, YamlView::Str("native"@), "color_scheme"@);
    }
    let p = with_section(p1, "style"@, st2);
    crate::rime::edit::lemma_with_section_get(p1, "style"@, st2);
    match map_get(p1, "style"@) {
        Some(v) => {
            crate::rime::yaml::lemma_insert_other(p1, "style"@, rewrap(v, st2), pk);
            crate::rime::yaml::lemma_insert_get(p1, "style"@, rewrap(v, st2));
        },
        None => {
            crate::rime::yaml::lemma_insert_other(p1, "style"@, YamlView::Mapping(st2), pk);
            crate::rime::yaml::lemma_insert_get(p1, "style"@, YamlView::Mapping(st2));
        },
    }
    assert(mapping_at(p, "style"@) == st2);
    assert(mapping_at(p, pk) == mapping_at(p1, pk));
}

} // verus!
