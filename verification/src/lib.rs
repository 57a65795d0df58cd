//! Block storage primitives: slabs of slots, pools of virtual drives, the
//! protocols that carry them, and the filesystems found on top.

pub mod align;
pub mod bits;
pub mod bytes;
pub mod digest;
pub mod drive;
pub mod fs;
pub mod ids;
pub mod maps;
pub mod numbers;
pub mod order;
pub mod placement;
pub mod text;
pub mod text_promises;
