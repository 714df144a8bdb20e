//! Property lanes and dense property ids.
use vstd::prelude::*;
use crate::plan::NodeIdx;

verus! {

/// Number of property lanes per node.
pub const PROPERTY_KEY_COUNT: u32 = 33;

/// Dense property id: `node * PROPERTY_KEY_COUNT + lane`.
#[derive(Debug, Clone, Copy, PartialEq, Eq)]
pub struct PropertyId(pub u32);

/// An animatable property lane of a node.
#[derive(Debug, Clone, Copy, PartialEq, Eq)]
pub enum PropertyKey {
    /// Lane `Opacity`.
    Opacity,
    /// Lane `TransformTranslateX`.
    TransformTranslateX,
    /// Lane `TransformTranslateY`.
    TransformTranslateY,
    /// Lane `TransformRotationRad`.
    TransformRotationRad,
    /// Lane `TransformScaleX`.
    TransformScaleX,
    /// Lane `TransformScaleY`.
    TransformScaleY,
    /// Lane `TransformAnchorX`.
    TransformAnchorX,
    /// Lane `TransformAnchorY`.
    TransformAnchorY,
    /// Lane `TransformSkewX`.
    TransformSkewX,
    /// Lane `TransformSkewY`.
    TransformSkewY,
    /// Lane `SwitchActiveIndex`.
    SwitchActiveIndex,
    /// Lane `LayoutX`.
    LayoutX,
    /// Lane `LayoutY`.
    LayoutY,
    /// Lane `LayoutWidth`.
    LayoutWidth,
    /// Lane `LayoutHeight`.
    LayoutHeight,
    /// Lane `LayoutGapX`.
    LayoutGapX,
    /// Lane `LayoutGapY`.
    LayoutGapY,
    /// Lane `LayoutPaddingTopPx`.
    LayoutPaddingTopPx,
    /// Lane `LayoutPaddingRightPx`.
    LayoutPaddingRightPx,
    /// Lane `LayoutPaddingBottomPx`.
    LayoutPaddingBottomPx,
    /// Lane `LayoutPaddingLeftPx`.
    LayoutPaddingLeftPx,
    /// Lane `LayoutMarginTopPx`.
    LayoutMarginTopPx,
    /// Lane `LayoutMarginRightPx`.
    LayoutMarginRightPx,
    /// Lane `LayoutMarginBottomPx`.
    LayoutMarginBottomPx,
    /// Lane `LayoutMarginLeftPx`.
    LayoutMarginLeftPx,
    /// Lane `LayoutFlexGrow`.
    LayoutFlexGrow,
    /// Lane `LayoutFlexShrink`.
    LayoutFlexShrink,
    /// Lane `LayoutWidthPx`.
    LayoutWidthPx,
    /// Lane `LayoutHeightPx`.
    LayoutHeightPx,
    /// Lane `LayoutMinWidthPx`.
    LayoutMinWidthPx,
    /// Lane `LayoutMinHeightPx`.
    LayoutMinHeightPx,
    /// Lane `LayoutMaxWidthPx`.
    LayoutMaxWidthPx,
    /// Lane `LayoutMaxHeightPx`.
    LayoutMaxHeightPx,
}

/// Stable numeric code of a lane.
pub open spec fn key_code(k: PropertyKey) -> u32 {
    match k {
        PropertyKey::Opacity => 0,
        PropertyKey::TransformTranslateX => 1,
        PropertyKey::TransformTranslateY => 2,
        PropertyKey::TransformRotationRad => 3,
        PropertyKey::TransformScaleX => 4,
        PropertyKey::TransformScaleY => 5,
        PropertyKey::TransformAnchorX => 6,
        PropertyKey::TransformAnchorY => 7,
        PropertyKey::TransformSkewX => 8,
        PropertyKey::TransformSkewY => 9,
        PropertyKey::SwitchActiveIndex => 10,
        PropertyKey::LayoutX => 11,
        PropertyKey::LayoutY => 12,
        PropertyKey::LayoutWidth => 13,
        PropertyKey::LayoutHeight => 14,
        PropertyKey::LayoutGapX => 15,
        PropertyKey::LayoutGapY => 16,
        PropertyKey::LayoutPaddingTopPx => 17,
        PropertyKey::LayoutPaddingRightPx => 18,
        PropertyKey::LayoutPaddingBottomPx => 19,
        PropertyKey::LayoutPaddingLeftPx => 20,
        PropertyKey::LayoutMarginTopPx => 21,
        PropertyKey::LayoutMarginRightPx => 22,
        PropertyKey::LayoutMarginBottomPx => 23,
        PropertyKey::LayoutMarginLeftPx => 24,
        PropertyKey::LayoutFlexGrow => 25,
        PropertyKey::LayoutFlexShrink => 26,
        PropertyKey::LayoutWidthPx => 27,
        PropertyKey::LayoutHeightPx => 28,
        PropertyKey::LayoutMinWidthPx => 29,
        PropertyKey::LayoutMinHeightPx => 30,
        PropertyKey::LayoutMaxWidthPx => 31,
        PropertyKey::LayoutMaxHeightPx => 32,
    }
}

/// Lane with numeric code `v`, if any.
pub open spec fn key_of_code(v: u32) -> Option<PropertyKey> {
    if v == 0 {
        Some(PropertyKey::Opacity)
    } else if v == 1 {
        Some(PropertyKey::TransformTranslateX)
    } else if v == 2 {
        Some(PropertyKey::TransformTranslateY)
    } else if v == 3 {
        Some(PropertyKey::TransformRotationRad)
    } else if v == 4 {
        Some(PropertyKey::TransformScaleX)
    } else if v == 5 {
        Some(PropertyKey::TransformScaleY)
    } else if v == 6 {
        Some(PropertyKey::TransformAnchorX)
    } else if v == 7 {
        Some(PropertyKey::TransformAnchorY)
    } else if v == 8 {
        Some(PropertyKey::TransformSkewX)
    } else if v == 9 {
        Some(PropertyKey::TransformSkewY)
    } else if v == 10 {
        Some(PropertyKey::SwitchActiveIndex)
    } else if v == 11 {
        Some(PropertyKey::LayoutX)
    } else if v == 12 {
        Some(PropertyKey::LayoutY)
    } else if v == 13 {
        Some(PropertyKey::LayoutWidth)
    } else if v == 14 {
        Some(PropertyKey::LayoutHeight)
    } else if v == 15 {
        Some(PropertyKey::LayoutGapX)
    } else if v == 16 {
        Some(PropertyKey::LayoutGapY)
    } else if v == 17 {
        Some(PropertyKey::LayoutPaddingTopPx)
    } else if v == 18 {
        Some(PropertyKey::LayoutPaddingRightPx)
    } else if v == 19 {
        Some(PropertyKey::LayoutPaddingBottomPx)
    } else if v == 20 {
        Some(PropertyKey::LayoutPaddingLeftPx)
    } else if v == 21 {
        Some(PropertyKey::LayoutMarginTopPx)
    } else if v == 22 {
        Some(PropertyKey::LayoutMarginRightPx)
    } else if v == 23 {
        Some(PropertyKey::LayoutMarginBottomPx)
    } else if v == 24 {
        Some(PropertyKey::LayoutMarginLeftPx)
    } else if v == 25 {
        Some(PropertyKey::LayoutFlexGrow)
    } else if v == 26 {
        Some(PropertyKey::LayoutFlexShrink)
    } else if v == 27 {
        Some(PropertyKey::LayoutWidthPx)
    } else if v == 28 {
        Some(PropertyKey::LayoutHeightPx)
    } else if v == 29 {
        Some(PropertyKey::LayoutMinWidthPx)
    } else if v == 30 {
        Some(PropertyKey::LayoutMinHeightPx)
    } else if v == 31 {
        Some(PropertyKey::LayoutMaxWidthPx)
    } else if v == 32 {
        Some(PropertyKey::LayoutMaxHeightPx)
    } else {
        None
    }
}

impl PropertyKey {
    /// Stable numeric code of the lane (`0..PROPERTY_KEY_COUNT`).
    pub fn as_u32(self) -> (r: u32)
        ensures
            r == key_code(self),
            r < PROPERTY_KEY_COUNT,
    {
        match self {
        PropertyKey::Opacity => 0,
        PropertyKey::TransformTranslateX => 1,
        PropertyKey::TransformTranslateY => 2,
        PropertyKey::TransformRotationRad => 3,
        PropertyKey::TransformScaleX => 4,
        PropertyKey::TransformScaleY => 5,
        PropertyKey::TransformAnchorX => 6,
        PropertyKey::TransformAnchorY => 7,
        PropertyKey::TransformSkewX => 8,
        PropertyKey::TransformSkewY => 9,
        PropertyKey::SwitchActiveIndex => 10,
        PropertyKey::LayoutX => 11,
        PropertyKey::LayoutY => 12,
        PropertyKey::LayoutWidth => 13,
        PropertyKey::LayoutHeight => 14,
        PropertyKey::LayoutGapX => 15,
        PropertyKey::LayoutGapY => 16,
        PropertyKey::LayoutPaddingTopPx => 17,
        PropertyKey::LayoutPaddingRightPx => 18,
        PropertyKey::LayoutPaddingBottomPx => 19,
        PropertyKey::LayoutPaddingLeftPx => 20,
        PropertyKey::LayoutMarginTopPx => 21,
        PropertyKey::LayoutMarginRightPx => 22,
        PropertyKey::LayoutMarginBottomPx => 23,
        PropertyKey::LayoutMarginLeftPx => 24,
        PropertyKey::LayoutFlexGrow => 25,
        PropertyKey::LayoutFlexShrink => 26,
        PropertyKey::LayoutWidthPx => 27,
        PropertyKey::LayoutHeightPx => 28,
        PropertyKey::LayoutMinWidthPx => 29,
        PropertyKey::LayoutMinHeightPx => 30,
        PropertyKey::LayoutMaxWidthPx => 31,
        PropertyKey::LayoutMaxHeightPx => 32,
        }
    }
}

/// Lane with numeric code `v`, or `None` when `v >= PROPERTY_KEY_COUNT`.
pub fn property_key_from_u32(v: u32) -> (r: Option<PropertyKey>)
    ensures
        r == key_of_code(v),
        r is Some <==> v < PROPERTY_KEY_COUNT,
        r matches Some(k) ==> key_code(k) == v,
{
    match v {
        0 => Some(PropertyKey::Opacity),
        1 => Some(PropertyKey::TransformTranslateX),
        2 => Some(PropertyKey::TransformTranslateY),
        3 => Some(PropertyKey::TransformRotationRad),
        4 => Some(PropertyKey::TransformScaleX),
        5 => Some(PropertyKey::TransformScaleY),
        6 => Some(PropertyKey::TransformAnchorX),
        7 => Some(PropertyKey::TransformAnchorY),
        8 => Some(PropertyKey::TransformSkewX),
        9 => Some(PropertyKey::TransformSkewY),
        10 => Some(PropertyKey::SwitchActiveIndex),
        11 => Some(PropertyKey::LayoutX),
        12 => Some(PropertyKey::LayoutY),
        13 => Some(PropertyKey::LayoutWidth),
        14 => Some(PropertyKey::LayoutHeight),
        15 => Some(PropertyKey::LayoutGapX),
        16 => Some(PropertyKey::LayoutGapY),
        17 => Some(PropertyKey::LayoutPaddingTopPx),
        18 => Some(PropertyKey::LayoutPaddingRightPx),
        19 => Some(PropertyKey::LayoutPaddingBottomPx),
        20 => Some(PropertyKey::LayoutPaddingLeftPx),
        21 => Some(PropertyKey::LayoutMarginTopPx),
        22 => Some(PropertyKey::LayoutMarginRightPx),
        23 => Some(PropertyKey::LayoutMarginBottomPx),
        24 => Some(PropertyKey::LayoutMarginLeftPx),
        25 => Some(PropertyKey::LayoutFlexGrow),
        26 => Some(PropertyKey::LayoutFlexShrink),
        27 => Some(PropertyKey::LayoutWidthPx),
        28 => Some(PropertyKey::LayoutHeightPx),
        29 => Some(PropertyKey::LayoutMinWidthPx),
        30 => Some(PropertyKey::LayoutMinHeightPx),
        31 => Some(PropertyKey::LayoutMaxWidthPx),
        32 => Some(PropertyKey::LayoutMaxHeightPx),
        _ => None,
    }
}

/// Every lane's code maps back to the lane.
pub proof fn law_key_code_roundtrip(k: PropertyKey)
    ensures
        key_of_code(key_code(k)) == Some(k),
        key_code(k) < PROPERTY_KEY_COUNT,
{
}

/// Dense id of lane `key` of node `node` (saturating at `u32::MAX`).
pub open spec fn spec_property_id(node: NodeIdx, key: PropertyKey) -> PropertyId {
    let v = node.0 * PROPERTY_KEY_COUNT + key_code(key);
    PropertyId(if v > u32::MAX { u32::MAX } else { v as u32 })
}

/// Namespace for dense property-id arithmetic.
pub struct PropertyIndex;

impl PropertyIndex {
    /// Dense id of lane `key` of node `node`: `node * PROPERTY_KEY_COUNT + key`, saturating.
    pub fn property_id(node: NodeIdx, key: PropertyKey) -> (r: PropertyId)
        ensures
            r == spec_property_id(node, key),
    {
        let k = key.as_u32();
        let prod: u64 = node.0 as u64 * PROPERTY_KEY_COUNT as u64;
        let m: u32 = if prod > u32::MAX as u64 { u32::MAX } else { prod as u32 };
        PropertyId(m.saturating_add(k))
    }
}

/// Node that owns property `pid`.
pub fn pid_to_owner_node(pid: PropertyId) -> (r: NodeIdx)
    ensures
        r.0 == pid.0 / PROPERTY_KEY_COUNT,
{
    NodeIdx(pid.0 / PROPERTY_KEY_COUNT)
}

/// A node's lane survives the trip through its dense property id whenever the id does not
/// saturate.
pub proof fn law_property_id_roundtrip(node: NodeIdx, key: PropertyKey)
    requires
        node.0 * PROPERTY_KEY_COUNT + PROPERTY_KEY_COUNT <= u32::MAX + 1,
    ensures
        spec_property_id(node, key).0 / PROPERTY_KEY_COUNT == node.0,
        spec_property_id(node, key).0 % PROPERTY_KEY_COUNT == key_code(key),
{
    let v = node.0 * PROPERTY_KEY_COUNT + key_code(key);
    assert(v / 33 == node.0 && v % 33 == key_code(key)) by (nonlinear_arith)
        requires v == node.0 * 33 + key_code(key), 0 <= key_code(key) < 33, 0 <= node.0;
}

/// Value type of a property's result.
#[derive(Debug, Clone, Copy, PartialEq, Eq)]
pub enum ValueType {
    /// Floating-point number.
    F64,
    /// Boolean.
    Bool,
    /// Unsigned integer.
    U64,
    /// Colour.
    Color,
}

/// Value type of a node lane read directly from its animation.
pub fn value_type_for_lane(lane: PropertyKey) -> (r: ValueType)
    ensures
        r == if lane == PropertyKey::SwitchActiveIndex { ValueType::U64 } else { ValueType::F64 },
{
    match lane {
        PropertyKey::SwitchActiveIndex => ValueType::U64,
        _ => ValueType::F64,
    }
}

} // verus!
