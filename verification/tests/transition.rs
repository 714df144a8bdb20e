use wavyte::plan::{IrisShape, SlideDir, WipeDir};
use wavyte::transition::{
    ease_by_name, keyword, parse_iris_shape, parse_slide_dir, parse_wipe_dir, transition_ease,
    transition_kind, EaseName, TransitionKindTag,
};

#[test]
fn keywords_are_trimmed_and_lower_cased() {
    assert_eq!(keyword("  Left_To_RIGHT\t"), "left_to_right");
    assert_eq!(keyword("\u{2003}Iris\n"), "iris");
    assert_eq!(keyword("ÉTÉ"), "ÉtÉ");
    assert_eq!(keyword(""), "");
}

#[test]
fn wipe_directions() {
    assert_eq!(parse_wipe_dir(None), WipeDir::LeftToRight);
    assert_eq!(parse_wipe_dir(Some(" LTR ")), WipeDir::LeftToRight);
    assert_eq!(parse_wipe_dir(Some("rightToLeft")), WipeDir::RightToLeft);
    assert_eq!(parse_wipe_dir(Some("ttb")), WipeDir::TopToBottom);
    assert_eq!(parse_wipe_dir(Some("Bottom_To_Top")), WipeDir::BottomToTop);
    assert_eq!(parse_wipe_dir(Some("sideways")), WipeDir::LeftToRight);
}

#[test]
fn slide_directions_and_iris_shapes() {
    assert_eq!(parse_slide_dir(None), SlideDir::Left);
    assert_eq!(parse_slide_dir(Some("Right")), SlideDir::Right);
    assert_eq!(parse_slide_dir(Some(" up")), SlideDir::Up);
    assert_eq!(parse_slide_dir(Some("DOWN")), SlideDir::Down);
    assert_eq!(parse_slide_dir(Some("diagonal")), SlideDir::Left);
    assert_eq!(parse_iris_shape(None), IrisShape::Circle);
    assert_eq!(parse_iris_shape(Some("Rectangle")), IrisShape::Rect);
    assert_eq!(parse_iris_shape(Some("rect")), IrisShape::Rect);
    assert_eq!(parse_iris_shape(Some("diamond ")), IrisShape::Diamond);
    assert_eq!(parse_iris_shape(Some("star")), IrisShape::Circle);
}

#[test]
fn transition_kinds_and_eases() {
    assert_eq!(transition_kind(" Wipe"), TransitionKindTag::Wipe);
    assert_eq!(transition_kind("SLIDE"), TransitionKindTag::Slide);
    assert_eq!(transition_kind("zoom"), TransitionKindTag::Zoom);
    assert_eq!(transition_kind("iris"), TransitionKindTag::Iris);
    assert_eq!(transition_kind("fade"), TransitionKindTag::Crossfade);
    assert_eq!(ease_by_name("ease_in_out"), Some(EaseName::EaseInOut));
    assert_eq!(ease_by_name("bounce_out"), Some(EaseName::BounceOut));
    assert_eq!(ease_by_name(" linear"), None);
    assert_eq!(ease_by_name("Linear"), None);
    assert_eq!(transition_ease(None), EaseName::Linear);
    assert_eq!(transition_ease(Some("hold")), EaseName::Hold);
    assert_eq!(transition_ease(Some("springy")), EaseName::Linear);
}
