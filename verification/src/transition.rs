//! Transition settings written as keywords in a composition: kind, direction, iris shape
//! and easing name.
use vstd::prelude::*;
use crate::parser::{trim_str, trim_ws};
use crate::plan::{IrisShape, SlideDir, WipeDir};
use crate::text::{is_word, push_char};

verus! {

/// ASCII lower case of a character (other characters unchanged).
pub open spec fn lower_char(c: char) -> char {
    if 65 <= c as u32 <= 90 { ((c as u32 + 32) as u8) as char } else { c }
}

/// A keyword as written: surrounding white space removed, ASCII letters lower-cased.
pub open spec fn keyword_of(s: Seq<char>) -> Seq<char> {
    trim_ws(s).map_values(|c: char| lower_char(c))
}

fn lower(c: char) -> (r: char)
    ensures
        r == lower_char(c),
{
    let u = c as u32;
    if 65 <= u && u <= 90 {
        ((u + 32) as u8) as char
    } else {
        c
    }
}

/// The keyword spelled by `s`: trimmed and ASCII lower-cased.
pub fn keyword(s: &str) -> (r: String)
    ensures
        r@ == keyword_of(s@),
{
    let t = trim_str(s);
    let n = t.unicode_len();
    let mut out = String::new();
    let mut i: usize = 0;
    while i < n
        invariant
            i <= n,
            n == t@.len(),
            t@ == trim_ws(s@),
            out@ == t@.subrange(0, i as int).map_values(|c: char| lower_char(c)),
        decreases n - i,
    {
        let c = t.get_char(i);
        push_char(&mut out, lower(c));
        i = i + 1;
        assert(out@ =~= t@.subrange(0, i as int).map_values(|c: char| lower_char(c)));
    }
    assert(t@.subrange(0, n as int) =~= t@);
    out
}

/// Wipe direction named by a keyword (left to right when unknown).
pub open spec fn wipe_dir_of(k: Seq<char>) -> WipeDir {
    if k == "left_to_right"@ || k == "lefttoright"@ || k == "ltr"@ {
        WipeDir::LeftToRight
    } else if k == "right_to_left"@ || k == "righttoleft"@ || k == "rtl"@ {
        WipeDir::RightToLeft
    } else if k == "top_to_bottom"@ || k == "toptobottom"@ || k == "ttb"@ {
        WipeDir::TopToBottom
    } else if k == "bottom_to_top"@ || k == "bottomtotop"@ || k == "btt"@ {
        WipeDir::BottomToTop
    } else {
        WipeDir::LeftToRight
    }
}

/// Direction of a wipe from its optional `dir` parameter (left to right by default).
pub fn parse_wipe_dir(s: Option<&str>) -> (r: WipeDir)
    ensures
        r == match s { None => WipeDir::LeftToRight, Some(t) => wipe_dir_of(keyword_of(t@)) },
{
    match s {
        None => WipeDir::LeftToRight,
        Some(t) => {
            let k = keyword(t);
            if is_word(&k, "left_to_right") || is_word(&k, "lefttoright") || is_word(&k, "ltr") {
                WipeDir::LeftToRight
            } else if is_word(&k, "right_to_left") || is_word(&k, "righttoleft") || is_word(&k, "rtl") {
                WipeDir::RightToLeft
            } else if is_word(&k, "top_to_bottom") || is_word(&k, "toptobottom") || is_word(&k, "ttb") {
                WipeDir::TopToBottom
            } else if is_word(&k, "bottom_to_top") || is_word(&k, "bottomtotop") || is_word(&k, "btt") {
                WipeDir::BottomToTop
            } else {
                WipeDir::LeftToRight
            }
        },
    }
}

/// Slide direction named by a keyword (left when unknown).
pub open spec fn slide_dir_of(k: Seq<char>) -> SlideDir {
    if k == "left"@ {
        SlideDir::Left
    } else if k == "right"@ {
        SlideDir::Right
    } else if k == "up"@ {
        SlideDir::Up
    } else if k == "down"@ {
        SlideDir::Down
    } else {
        SlideDir::Left
    }
}

/// Direction of a slide from its optional `dir` parameter (left by default).
pub fn parse_slide_dir(s: Option<&str>) -> (r: SlideDir)
    ensures
        r == match s { None => SlideDir::Left, Some(t) => slide_dir_of(keyword_of(t@)) },
{
    match s {
        None => SlideDir::Left,
        Some(t) => {
            let k = keyword(t);
            if is_word(&k, "left") {
                SlideDir::Left
            } else if is_word(&k, "right") {
                SlideDir::Right
            } else if is_word(&k, "up") {
                SlideDir::Up
            } else if is_word(&k, "down") {
                SlideDir::Down
            } else {
                SlideDir::Left
            }
        },
    }
}

/// Iris shape named by a keyword (circle when unknown).
pub open spec fn iris_shape_of(k: Seq<char>) -> IrisShape {
    if k == "circle"@ {
        IrisShape::Circle
    } else if k == "rect"@ || k == "rectangle"@ {
        IrisShape::Rect
    } else if k == "diamond"@ {
        IrisShape::Diamond
    } else {
        IrisShape::Circle
    }
}

/// Shape of an iris from its optional `shape` parameter (circle by default).
pub fn parse_iris_shape(s: Option<&str>) -> (r: IrisShape)
    ensures
        r == match s { None => IrisShape::Circle, Some(t) => iris_shape_of(keyword_of(t@)) },
{
    match s {
        None => IrisShape::Circle,
        Some(t) => {
            let k = keyword(t);
            if is_word(&k, "circle") {
                IrisShape::Circle
            } else if is_word(&k, "rect") || is_word(&k, "rectangle") {
                IrisShape::Rect
            } else if is_word(&k, "diamond") {
                IrisShape::Diamond
            } else {
                IrisShape::Circle
            }
        },
    }
}

/// The kinds of transition.
#[derive(Debug, Clone, Copy, PartialEq, Eq)]
pub enum TransitionKindTag {
    /// Crossfade.
    Crossfade,
    /// Wipe.
    Wipe,
    /// Slide.
    Slide,
    /// Zoom.
    Zoom,
    /// Iris.
    Iris,
}

/// Transition kind named by a keyword (crossfade when unknown).
pub open spec fn transition_kind_of(k: Seq<char>) -> TransitionKindTag {
    if k == "crossfade"@ {
        TransitionKindTag::Crossfade
    } else if k == "wipe"@ {
        TransitionKindTag::Wipe
    } else if k == "slide"@ {
        TransitionKindTag::Slide
    } else if k == "zoom"@ {
        TransitionKindTag::Zoom
    } else if k == "iris"@ {
        TransitionKindTag::Iris
    } else {
        TransitionKindTag::Crossfade
    }
}

/// Kind of a transition from its `kind` string.
pub fn transition_kind(kind: &str) -> (r: TransitionKindTag)
    ensures
        r == transition_kind_of(keyword_of(kind@)),
{
    let k = keyword(kind);
    if is_word(&k, "crossfade") {
        TransitionKindTag::Crossfade
    } else if is_word(&k, "wipe") {
        TransitionKindTag::Wipe
    } else if is_word(&k, "slide") {
        TransitionKindTag::Slide
    } else if is_word(&k, "zoom") {
        TransitionKindTag::Zoom
    } else if is_word(&k, "iris") {
        TransitionKindTag::Iris
    } else {
        TransitionKindTag::Crossfade
    }
}

/// The easing curves that have a name.
#[derive(Debug, Clone, Copy, PartialEq, Eq)]
pub enum EaseName {
    /// Step at the end.
    Hold,
    /// Straight line.
    Linear,
    /// Accelerating.
    EaseIn,
    /// Decelerating.
    EaseOut,
    /// Accelerating then decelerating.
    EaseInOut,
    /// Overshooting spring.
    ElasticOut,
    /// Bouncing.
    BounceOut,
}

/// The easing curve with exactly this name, if any.
pub open spec fn ease_named(s: Seq<char>) -> Option<EaseName> {
    if s == "hold"@ {
        Some(EaseName::Hold)
    } else if s == "linear"@ {
        Some(EaseName::Linear)
    } else if s == "ease_in"@ {
        Some(EaseName::EaseIn)
    } else if s == "ease_out"@ {
        Some(EaseName::EaseOut)
    } else if s == "ease_in_out"@ {
        Some(EaseName::EaseInOut)
    } else if s == "elastic_out"@ {
        Some(EaseName::ElasticOut)
    } else if s == "bounce_out"@ {
        Some(EaseName::BounceOut)
    } else {
        None
    }
}

/// The easing curve named exactly `s` (no trimming, case-sensitive).
pub fn ease_by_name(s: &str) -> (r: Option<EaseName>)
    ensures
        r == ease_named(s@),
{
    let k = String::from_str(s);
    if is_word(&k, "hold") {
        Some(EaseName::Hold)
    } else if is_word(&k, "linear") {
        Some(EaseName::Linear)
    } else if is_word(&k, "ease_in") {
        Some(EaseName::EaseIn)
    } else if is_word(&k, "ease_out") {
        Some(EaseName::EaseOut)
    } else if is_word(&k, "ease_in_out") {
        Some(EaseName::EaseInOut)
    } else if is_word(&k, "elastic_out") {
        Some(EaseName::ElasticOut)
    } else if is_word(&k, "bounce_out") {
        Some(EaseName::BounceOut)
    } else {
        None
    }
}

/// A transition's easing: the named curve, linear when absent or unknown.
pub fn transition_ease(s: Option<&str>) -> (r: EaseName)
    ensures
        r == match s {
            None => EaseName::Linear,
            Some(t) => match ease_named(t@) { Some(e) => e, None => EaseName::Linear },
        },
{
    match s {
        None => EaseName::Linear,
        Some(t) => match ease_by_name(t) {
            Some(e) => e,
            None => EaseName::Linear,
        },
    }
}

} // verus!
