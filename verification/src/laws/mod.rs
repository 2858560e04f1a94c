//! What holds of the driver as a whole, stated over [`crate::model`].

pub mod bring_up;
pub mod drawing;
pub mod link;
pub mod order;
pub mod registers;
pub mod sending;
pub mod stepping;
pub mod timeline;
pub mod values;
