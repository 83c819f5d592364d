use vstd::prelude::*;

verus! {

/// An 8-bit RGB color, quantized and ready to be stored in a framebuffer.
#[derive(Clone, Copy, Debug, PartialEq, Eq, Structural)]
pub struct Color(pub u8, pub u8, pub u8);

} // verus!
