//! Parts of the WebGPU backend that hold no GPU object: its types, and the
//! CPU-side world bookkeeping done each frame.
pub mod load;
pub mod render;
pub mod types;
