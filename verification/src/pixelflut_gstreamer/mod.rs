pub mod connectionpool;
pub mod conv_utils;
pub mod encoding_helpers;
pub mod encoding_ng;
pub mod partitioned_buffer_meta;
pub mod pixelflut_builder;
pub mod pxmultitcpsink;
pub mod rsduplicator;
pub mod rsimage2pixelflut;
pub mod simplethreadpool;
pub mod hostspec;
