use vstd::prelude::*;

use crate::rime::config::TargetOs;
use crate::rime::yaml::YamlNumber;

verus! {

/// The look of the candidate window. Sizes are numbers as the configuration
/// writes them (a double keeps its bits).
pub struct RimeStyle {
    pub color_scheme_name: String,
    pub color_scheme_dark_name: String,
    pub status_message_type: String,
    pub candidate_format: String,
    pub text_orientation: String,
    pub inline_preedit: bool,
    pub inline_candidate: bool,
    pub translucency: bool,
    pub mutual_exclusive: bool,
    pub memorize_size: bool,
    pub show_paging: bool,
    pub candidate_list_layout: String,
    pub alpha: YamlNumber,
    pub corner_radius: YamlNumber,
    pub hilited_corner_radius: YamlNumber,
    pub border_height: YamlNumber,
    pub border_width: YamlNumber,
    pub line_spacing: YamlNumber,
    pub spacing: YamlNumber,
    pub shadow_size: YamlNumber,
    pub font_face: String,
    pub font_point: YamlNumber,
    pub label_font_face: String,
    pub label_font_point: YamlNumber,
    pub comment_font_face: String,
    pub comment_font_point: YamlNumber,
}

/// The default font of a platform.
pub open spec fn default_font(os: TargetOs) -> Seq<char> {
    match os {
        TargetOs::MacOs => "PingFang SC"@,
        TargetOs::Windows => "Microsoft YaHei"@,
        TargetOs::Other => "Noto Sans CJK SC"@,
    }
}

/// The default label font of a platform.
pub open spec fn label_font(os: TargetOs) -> Seq<char> {
    match os {
        TargetOs::MacOs => "Lucida Grande"@,
        TargetOs::Windows => "Segoe UI"@,
        TargetOs::Other => "Noto Sans"@,
    }
}

pub fn platform_default_font(os: TargetOs) -> (s: String)
    ensures
        s@ == default_font(os),
{
    match os {
        TargetOs::MacOs => "PingFang SC".to_string(),
        TargetOs::Windows => "Microsoft YaHei".to_string(),
        TargetOs::Other => "Noto Sans CJK SC".to_string(),
    }
}

pub fn platform_label_font(os: TargetOs) -> (s: String)
    ensures
        s@ == label_font(os),
{
    match os {
        TargetOs::MacOs => "Lucida Grande".to_string(),
        TargetOs::Windows => "Segoe UI".to_string(),
        TargetOs::Other => "Noto Sans".to_string(),
    }
}

/// The default style on a platform (the sizes are doubles: 1.0, 10.0, 5.0,
/// 16.0, 14.0 and 0.0).
pub open spec fn is_default_style(s: RimeStyle, os: TargetOs) -> bool {
    &&& s.color_scheme_name@ == "native"@
    &&& s.color_scheme_dark_name@ == "native"@
    &&& s.status_message_type@ == "mix"@
    &&& s.candidate_format@ == "[label]. [candidate] [comment]"@
    &&& s.text_orientation@ == "horizontal"@
    &&& s.inline_preedit == true
    &&& s.inline_candidate == false
    &&& s.translucency == false
    &&& s.mutual_exclusive == false
    &&& s.memorize_size == true
    &&& s.show_paging == false
    &&& s.candidate_list_layout@ == "stacked"@
    &&& s.alpha == YamlNumber::Float(0x3FF0_0000_0000_0000)
    &&& s.corner_radius == YamlNumber::Float(0x4024_0000_0000_0000)
    &&& s.hilited_corner_radius == YamlNumber::Float(0)
    &&& s.border_height == YamlNumber::Float(0)
    &&& s.border_width == YamlNumber::Float(0)
    &&& s.line_spacing == YamlNumber::Float(0x4014_0000_0000_0000)
    &&& s.spacing == YamlNumber::Float(0x4024_0000_0000_0000)
    &&& s.shadow_size == YamlNumber::Float(0)
    &&& s.font_face@ == default_font(os)
    &&& s.font_point == YamlNumber::Float(0x4030_0000_0000_0000)
    &&& s.label_font_face@ == label_font(os)
    &&& s.label_font_point == YamlNumber::Float(0x4030_0000_0000_0000)
    &&& s.comment_font_face@ == default_font(os)
    &&& s.comment_font_point == YamlNumber::Float(0x402C_0000_0000_0000)
}

impl RimeStyle {
    /// The default style on a platform.
    pub fn default_for(os: TargetOs) -> (s: Self)
        ensures
            is_default_style(s, os),
    {
        RimeStyle {
            color_scheme_name: "native".to_string(),
            color_scheme_dark_name: "native".to_string(),
            status_message_type: "mix".to_string(),
            candidate_format: "[label]. [candidate] [comment]".to_string(),
            text_orientation: "horizontal".to_string(),
            inline_preedit: true,
            inline_candidate: false,
            translucency: false,
            mutual_exclusive: false,
            memorize_size: true,
            show_paging: false,
            candidate_list_layout: "stacked".to_string(),
            alpha: YamlNumber::Float(0x3FF0_0000_0000_0000),
            corner_radius: YamlNumber::Float(0x4024_0000_0000_0000),
            hilited_corner_radius: YamlNumber::Float(0),
            border_height: YamlNumber::Float(0),
            border_width: YamlNumber::Float(0),
            line_spacing: YamlNumber::Float(0x4014_0000_0000_0000),
            spacing: YamlNumber::Float(0x4024_0000_0000_0000),
            shadow_size: YamlNumber::Float(0),
            font_face: platform_default_font(os),
            font_point: YamlNumber::Float(0x4030_0000_0000_0000),
            label_font_face: platform_label_font(os),
            label_font_point: YamlNumber::Float(0x4030_0000_0000_0000),
            comment_font_face: platform_default_font(os),
            comment_font_point: YamlNumber::Float(0x402C_0000_0000_0000),
        }
    }
}

} // verus!
