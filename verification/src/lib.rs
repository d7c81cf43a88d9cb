//! Conversion of raw video frames from packed, semi-planar and planar YUV
//! layouts into planar 4:2:0 ("I420"), together with the decisions of a
//! frame-by-frame streaming driver.

pub mod layout;
pub mod plane;
pub mod from_yuyv;
pub mod from_nv12;
pub mod from_i422;
pub mod format;
pub mod pipeline;
