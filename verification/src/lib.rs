pub mod ascii;
pub mod pixelflut_base;
pub mod pixelflut_gstreamer;
