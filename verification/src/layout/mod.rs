//! How the children of a container are arranged and aligned.

pub mod arrangement;

pub use arrangement::{
    AlignItems, Alignment2D, HorizontalAlignment, HorizontalArrangement, JustifyContent,
    VerticalAlignment, VerticalArrangement,
};
