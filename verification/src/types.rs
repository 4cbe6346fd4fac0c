//! Core data types of the client: colors, pixels, drawing intents, and the
//! run configuration.

use vstd::prelude::*;

verus! {

/// One RGB color, one byte per channel.
#[derive(Debug, Clone, Copy, PartialEq, Eq, Structural)]
pub struct Rgb {
    pub r: u8,
    pub g: u8,
    pub b: u8,
}

/// One pixel to be painted: an absolute canvas coordinate and its color.
#[derive(Debug, Clone, Copy, PartialEq, Eq, Structural)]
pub struct Pixel {
    pub x: u32,
    pub y: u32,
    pub color: Rgb,
}

/// A filled rectangle to paint: the half-open coordinate ranges
/// `start_x..end_x` and `start_y..end_y`, in one color.
#[derive(Debug, Clone, Copy, PartialEq, Eq, Structural)]
pub struct Rect {
    pub start_x: u32,
    pub start_y: u32,
    pub end_x: u32,
    pub end_y: u32,
    pub color: Rgb,
}

/// A raster image to paint: the file to decode and the canvas offset of its
/// top-left corner.
#[derive(Debug, Clone)]
pub struct Image {
    pub x: u32,
    pub y: u32,
    pub path: String,
}

/// The drawing intent of one invocation.
#[derive(Debug, Clone)]
pub enum Command {
    /// Ask the server for its help text.
    Howto,
    /// Ask the server for the canvas dimensions.
    Size,
    /// Paint one pixel.
    Pixel(Pixel),
    /// Paint a filled rectangle.
    Rect(Rect),
    /// Stream a raster image.
    Image(Image),
}

/// The configuration of one run, immutable for its duration.
#[derive(Debug, Clone)]
pub struct Arguments {
    /// What to draw or ask.
    pub command: Command,
    /// Address of the target server.
    pub domain: String,
    /// How many concurrent workers paint an image.
    pub threads: usize,
    /// Whether to re-send the workload indefinitely.
    pub loops: bool,
    /// How many commands go into one network write.
    pub size: u32,
}

} // verus!
