//! The fixed look of each surface and marker category.
//!
//! Category names are matched exactly and with regard to case. A name that
//! is not in the table gets the default look, so the lookup never fails.

use vstd::prelude::*;
use crate::text::str_eq;

verus! {

/// How a region is painted.
#[derive(Clone, Copy, Debug, PartialEq, Eq)]
pub struct RegionStyle {
    pub fill_color: &'static str,
    pub stroke_color: &'static str,
    pub stroke_width: u32,
}

/// Mathematical model of a region's style.
pub struct RegionStyleView {
    pub fill_color: Seq<char>,
    pub stroke_color: Seq<char>,
    pub stroke_width: int,
}

impl View for RegionStyle {
    type V = RegionStyleView;

    open spec fn view(&self) -> RegionStyleView {
        RegionStyleView {
            fill_color: self.fill_color@,
            stroke_color: self.stroke_color@,
            stroke_width: self.stroke_width as int,
        }
    }
}

/// How a marker is painted.
#[derive(Clone, Copy, Debug, PartialEq, Eq)]
pub struct MarkerStyle {
    pub fill_color: &'static str,
    pub radius: u32,
}

/// Mathematical model of a marker's style.
pub struct MarkerStyleView {
    pub fill_color: Seq<char>,
    pub radius: int,
}

impl View for MarkerStyle {
    type V = MarkerStyleView;

    open spec fn view(&self) -> MarkerStyleView {
        MarkerStyleView { fill_color: self.fill_color@, radius: self.radius as int }
    }
}

/// Fill colour of a surface category; gray for a name that is not known.
pub open spec fn region_fill(category: Seq<char>) -> Seq<char> {
    if category == "Green"@ {
        "#228B22"@
    } else if category == "Fairway"@ {
        "#32CD32"@
    } else if category == "Rough"@ {
        "#006400"@
    } else if category == "Bunker"@ {
        "#F4A460"@
    } else if category == "Water"@ {
        "#4169E1"@
    } else if category == "Woods"@ {
        "#006400"@
    } else if category == "Sand"@ {
        "#C2B280"@
    } else {
        "#808080"@
    }
}

/// The style of a surface category: its fill, outlined in black, one unit
/// wide.
pub open spec fn region_style(category: Seq<char>) -> RegionStyleView {
    RegionStyleView {
        fill_color: region_fill(category),
        stroke_color: "black"@,
        stroke_width: 1,
    }
}

/// The style of a marker category; a small black dot for a name that is
/// not known.
pub open spec fn marker_style(category: Seq<char>) -> MarkerStyleView {
    if category == "Flag"@ {
        MarkerStyleView { fill_color: "#FFD700"@, radius: 5 }
    } else if category == "White"@ {
        MarkerStyleView { fill_color: "#FFF"@, radius: 3 }
    } else if category == "Red"@ {
        MarkerStyleView { fill_color: "#FF0000"@, radius: 3 }
    } else {
        MarkerStyleView { fill_color: "#000000"@, radius: 2 }
    }
}

/// Looks up the style of a surface category.
pub fn style_for(category: &str) -> (style: RegionStyle)
    ensures
        style@ == region_style(category@),
{
    let fill_color = if str_eq(category, "Green") {
        "#228B22"
    } else if str_eq(category, "Fairway") {
        "#32CD32"
    } else if str_eq(category, "Rough") {
        "#006400"
    } else if str_eq(category, "Bunker") {
        "#F4A460"
    } else if str_eq(category, "Water") {
        "#4169E1"
    } else if str_eq(category, "Woods") {
        "#006400"
    } else if str_eq(category, "Sand") {
        "#C2B280"
    } else {
        "#808080"
    };
    RegionStyle { fill_color, stroke_color: "black", stroke_width: 1 }
}

/// Looks up the style of a marker category.
pub fn marker_style_for(category: &str) -> (style: MarkerStyle)
    ensures
        style@ == marker_style(category@),
{
    if str_eq(category, "Flag") {
        MarkerStyle { fill_color: "#FFD700", radius: 5 }
    } else if str_eq(category, "White") {
        MarkerStyle { fill_color: "#FFF", radius: 3 }
    } else if str_eq(category, "Red") {
        MarkerStyle { fill_color: "#FF0000", radius: 3 }
    } else {
        MarkerStyle { fill_color: "#000000", radius: 2 }
    }
}

} // verus!
