//! Parts of the Vulkan backend that hold no GPU object.
pub mod load;
pub mod pc_types;
pub mod render;
pub mod types;
