//! Arrangement along the main axis of a container and alignment across it.

use vstd::prelude::*;

verus! {

/// How the renderer distributes children along the main axis.
#[derive(Clone, Copy, Debug, PartialEq, Eq, Structural)]
pub enum JustifyContent {
    FlexStart,
    FlexEnd,
    Center,
    SpaceBetween,
    SpaceAround,
    SpaceEvenly,
}

/// How the renderer aligns children across the main axis.
#[derive(Clone, Copy, Debug, PartialEq, Eq, Structural)]
pub enum AlignItems {
    FlexStart,
    FlexEnd,
    Center,
}

/// Horizontal arrangement of the children of a row.
#[derive(Clone, Copy, Debug, PartialEq, Eq, Structural)]
pub enum HorizontalArrangement {
    Start,
    End,
    Center,
    SpaceBetween,
    SpaceAround,
    SpaceEvenly,
}

/// Vertical arrangement of the children of a column.
#[derive(Clone, Copy, Debug, PartialEq, Eq, Structural)]
pub enum VerticalArrangement {
    Top,
    Bottom,
    Center,
    SpaceBetween,
    SpaceAround,
    SpaceEvenly,
}

/// Horizontal alignment of an item.
#[derive(Clone, Copy, Debug, PartialEq, Eq, Structural)]
pub enum HorizontalAlignment {
    Start,
    End,
    Center,
}

/// Vertical alignment of an item.
#[derive(Clone, Copy, Debug, PartialEq, Eq, Structural)]
pub enum VerticalAlignment {
    Top,
    Bottom,
    Center,
}

/// Alignment of the content of a box in both directions.
#[derive(Clone, Copy, Debug, PartialEq, Eq, Structural)]
pub struct Alignment2D {
    pub horizontal: HorizontalAlignment,
    pub vertical: VerticalAlignment,
}

impl HorizontalArrangement {
    /// The distribution along the main axis that this arrangement stands for.
    pub open spec fn justify(self) -> JustifyContent {
        match self {
            HorizontalArrangement::Start => JustifyContent::FlexStart,
            HorizontalArrangement::End => JustifyContent::FlexEnd,
            HorizontalArrangement::Center => JustifyContent::Center,
            HorizontalArrangement::SpaceBetween => JustifyContent::SpaceBetween,
            HorizontalArrangement::SpaceAround => JustifyContent::SpaceAround,
            HorizontalArrangement::SpaceEvenly => JustifyContent::SpaceEvenly,
        }
    }

    /// The distribution along the main axis that this arrangement stands for.
    pub fn to_justify_content(&self) -> (justify: JustifyContent)
        ensures
            justify == self.justify(),
    {
        match self {
            HorizontalArrangement::Start => JustifyContent::FlexStart,
            HorizontalArrangement::End => JustifyContent::FlexEnd,
            HorizontalArrangement::Center => JustifyContent::Center,
            HorizontalArrangement::SpaceBetween => JustifyContent::SpaceBetween,
            HorizontalArrangement::SpaceAround => JustifyContent::SpaceAround,
            HorizontalArrangement::SpaceEvenly => JustifyContent::SpaceEvenly,
        }
    }
}

impl Default for HorizontalArrangement {
    fn default() -> (arrangement: Self)
        ensures
            arrangement == HorizontalArrangement::Start,
    {
        HorizontalArrangement::Start
    }
}

impl VerticalArrangement {
    /// The distribution along the main axis that this arrangement stands for.
    pub open spec fn justify(self) -> JustifyContent {
        match self {
            VerticalArrangement::Top => JustifyContent::FlexStart,
            VerticalArrangement::Bottom => JustifyContent::FlexEnd,
            VerticalArrangement::Center => JustifyContent::Center,
            VerticalArrangement::SpaceBetween => JustifyContent::SpaceBetween,
            VerticalArrangement::SpaceAround => JustifyContent::SpaceAround,
            VerticalArrangement::SpaceEvenly => JustifyContent::SpaceEvenly,
        }
    }

    /// The distribution along the main axis that this arrangement stands for.
    pub fn to_justify_content(&self) -> (justify: JustifyContent)
        ensures
            justify == self.justify(),
    {
        match self {
            VerticalArrangement::Top => JustifyContent::FlexStart,
            VerticalArrangement::Bottom => JustifyContent::FlexEnd,
            VerticalArrangement::Center => JustifyContent::Center,
            VerticalArrangement::SpaceBetween => JustifyContent::SpaceBetween,
            VerticalArrangement::SpaceAround => JustifyContent::SpaceAround,
            VerticalArrangement::SpaceEvenly => JustifyContent::SpaceEvenly,
        }
    }
}

impl Default for VerticalArrangement {
    fn default() -> (arrangement: Self)
        ensures
            arrangement == VerticalArrangement::Top,
    {
        VerticalArrangement::Top
    }
}

impl HorizontalAlignment {
    /// The alignment across the main axis that this alignment stands for.
    pub open spec fn align(self) -> AlignItems {
        match self {
            HorizontalAlignment::Start => AlignItems::FlexStart,
            HorizontalAlignment::End => AlignItems::FlexEnd,
            HorizontalAlignment::Center => AlignItems::Center,
        }
    }

    /// The alignment across the main axis that this alignment stands for.
    pub fn to_align_items(&self) -> (align: AlignItems)
        ensures
            align == self.align(),
    {
        match self {
            HorizontalAlignment::Start => AlignItems::FlexStart,
            HorizontalAlignment::End => AlignItems::FlexEnd,
            HorizontalAlignment::Center => AlignItems::Center,
        }
    }

    /// The distribution along the main axis of a box whose content has this
    /// horizontal alignment.
    pub fn to_justify_content(&self) -> (justify: JustifyContent)
        ensures
            justify == (match *self {
                HorizontalAlignment::Start => JustifyContent::FlexStart,
                HorizontalAlignment::Center => JustifyContent::Center,
                HorizontalAlignment::End => JustifyContent::FlexEnd,
            }),
    {
        match self {
            HorizontalAlignment::Start => JustifyContent::FlexStart,
            HorizontalAlignment::Center => JustifyContent::Center,
            HorizontalAlignment::End => JustifyContent::FlexEnd,
        }
    }
}

impl Default for HorizontalAlignment {
    fn default() -> (alignment: Self)
        ensures
            alignment == HorizontalAlignment::Start,
    {
        HorizontalAlignment::Start
    }
}

impl VerticalAlignment {
    /// The alignment across the main axis that this alignment stands for.
    pub open spec fn align(self) -> AlignItems {
        match self {
            VerticalAlignment::Top => AlignItems::FlexStart,
            VerticalAlignment::Bottom => AlignItems::FlexEnd,
            VerticalAlignment::Center => AlignItems::Center,
        }
    }

    /// The alignment across the main axis that this alignment stands for.
    pub fn to_align_items(&self) -> (align: AlignItems)
        ensures
            align == self.align(),
    {
        match self {
            VerticalAlignment::Top => AlignItems::FlexStart,
            VerticalAlignment::Bottom => AlignItems::FlexEnd,
            VerticalAlignment::Center => AlignItems::Center,
        }
    }
}

impl Default for VerticalAlignment {
    fn default() -> (alignment: Self)
        ensures
            alignment == VerticalAlignment::Top,
    {
        VerticalAlignment::Top
    }
}

impl Alignment2D {
    /// Top, at the start.
    pub fn top_start() -> (a: Alignment2D)
        ensures
            a == (Alignment2D { horizontal: HorizontalAlignment::Start, vertical: VerticalAlignment::Top }),
    {
        Alignment2D { horizontal: HorizontalAlignment::Start, vertical: VerticalAlignment::Top }
    }

    /// Top, centered.
    pub fn top_center() -> (a: Alignment2D)
        ensures
            a == (Alignment2D { horizontal: HorizontalAlignment::Center, vertical: VerticalAlignment::Top }),
    {
        Alignment2D { horizontal: HorizontalAlignment::Center, vertical: VerticalAlignment::Top }
    }

    /// Top, at the end.
    pub fn top_end() -> (a: Alignment2D)
        ensures
            a == (Alignment2D { horizontal: HorizontalAlignment::End, vertical: VerticalAlignment::Top }),
    {
        Alignment2D { horizontal: HorizontalAlignment::End, vertical: VerticalAlignment::Top }
    }

    /// Centered vertically, at the start.
    pub fn center_start() -> (a: Alignment2D)
        ensures
            a == (Alignment2D { horizontal: HorizontalAlignment::Start, vertical: VerticalAlignment::Center }),
    {
        Alignment2D { horizontal: HorizontalAlignment::Start, vertical: VerticalAlignment::Center }
    }

    /// Centered in both directions.
    pub fn center() -> (a: Alignment2D)
        ensures
            a == (Alignment2D { horizontal: HorizontalAlignment::Center, vertical: VerticalAlignment::Center }),
    {
        Alignment2D { horizontal: HorizontalAlignment::Center, vertical: VerticalAlignment::Center }
    }

    /// Centered vertically, at the end.
    pub fn center_end() -> (a: Alignment2D)
        ensures
            a == (Alignment2D { horizontal: HorizontalAlignment::End, vertical: VerticalAlignment::Center }),
    {
        Alignment2D { horizontal: HorizontalAlignment::End, vertical: VerticalAlignment::Center }
    }

    /// Bottom, at the start.
    pub fn bottom_start() -> (a: Alignment2D)
        ensures
            a == (Alignment2D { horizontal: HorizontalAlignment::Start, vertical: VerticalAlignment::Bottom }),
    {
        Alignment2D { horizontal: HorizontalAlignment::Start, vertical: VerticalAlignment::Bottom }
    }

    /// Bottom, centered.
    pub fn bottom_center() -> (a: Alignment2D)
        ensures
            a == (Alignment2D { horizontal: HorizontalAlignment::Center, vertical: VerticalAlignment::Bottom }),
    {
        Alignment2D { horizontal: HorizontalAlignment::Center, vertical: VerticalAlignment::Bottom }
    }

    /// Bottom, at the end.
    pub fn bottom_end() -> (a: Alignment2D)
        ensures
            a == (Alignment2D { horizontal: HorizontalAlignment::End, vertical: VerticalAlignment::Bottom }),
    {
        Alignment2D { horizontal: HorizontalAlignment::End, vertical: VerticalAlignment::Bottom }
    }
}

impl Default for Alignment2D {
    fn default() -> (a: Self)
        ensures
            a == (Alignment2D { horizontal: HorizontalAlignment::Start, vertical: VerticalAlignment::Top }),
    {
        Alignment2D { horizontal: HorizontalAlignment::Start, vertical: VerticalAlignment::Top }
    }
}

} // verus!
