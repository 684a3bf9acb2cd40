//! A nova on a pixel buffer: a bright centre from which coloured spokes radiate,
//! fading outward and blending with the image underneath.
//!
//! The library holds the frame of the effect and proves it: the checks that a
//! request has to pass before a byte is written ([`canvas::check_layout`]),
//! the layout of the buffer and the walk over its pixels
//! ([`canvas::composite`]), the table of spokes and how it is filled and read
//! around the circle ([`spokes::SpokeTable`]), the table that hands the
//! candidate intensities of a hue to red, green and blue ([`hue::arrange`]),
//! and the selections by comparison ([`order`]). [`render::nova`] puts them
//! together.
//!
//! The arithmetic on real numbers is the caller's, who does it in floating
//! point: it comes in as the two functions that [`render::nova`] takes, one
//! that makes the next spoke and one that shades a pixel. What that arithmetic
//! is meant to compute is written down over the real numbers in [`color`] and
//! [`light`], with the laws that hold of it.

pub mod canvas;
pub mod color;
pub mod error;
pub mod hue;
pub mod light;
pub mod order;
pub mod render;
pub mod spokes;

pub use error::NovaError;
pub use order::clamp;
pub use order::max3;
pub use order::min3;
pub use render::nova;
pub use spokes::SpokeTable;
