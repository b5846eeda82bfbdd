pub mod blit_image;
pub mod blit_image_ng;
pub mod pixelflut_builder;
