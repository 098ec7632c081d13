//! Capture-and-decode core of a camera viewer: pixel-format conversion,
//! bilinear Bayer demosaicing, brightness histograms, frame-drop detection
//! and device-format negotiation decisions.

pub mod cam;
pub mod demosaic;
pub mod format;
pub mod frame;
pub mod rggb;
