//! Size, alignment and encoding of component-model values: in the bytes of a
//! linear memory, and as the JavaScript values that cross a function call.
//! Also the splitting of a component into its core modules, and the file
//! transformations of the packaging tool.

pub mod layout;
pub mod memory;
pub mod lift;
pub mod lower;
pub mod js;
pub mod val;
pub mod text;
pub mod transform;
pub mod component;
pub mod archive;
pub mod loader;
pub mod exports;
pub mod error;
