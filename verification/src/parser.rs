//! XML parsing: the event scanner and the tree builder.

pub mod xml;
