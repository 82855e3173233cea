use vstd::prelude::*;

verus! {

/// Number of canvases served.
pub const GRID_LENGTH: usize = 1;

/// Commands parsed between two flushes of a session's pixel counter.
pub const BATCH_N: u32 = 1000;

/// Quality handed to the JPEG encoder.
pub const JPEG_QUALITY: u8 = 50;

/// Length of a multipart boundary.
pub const BOUNDARY_LENGTH: usize = 10;

/// Help text of the text protocol.
pub const HELP_TEXT: &'static str = "Flurry is a pixelflut implementation, this means you can use commands to get and set pixels in the canvas
SIZE returns the size of the canvas
PX {x} {y} returns the color of the pixel at {x}, {y}
If you include a color in hex format you set a pixel instead
PX {x} {y} {RGB} sets the color of the pixel at {x}, {y} to the rgb value
PX {x} {y} {RGBA} blends the pixel at {x}, {y} with the rgb value weighted by the a
PX {x} {y} {W} sets the color of the pixel at {x}, {y} to the grayscale value
";

} // verus!
