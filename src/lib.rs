pub mod value;
pub mod binary;
pub mod writer;
pub mod binary_writer;
pub mod binary_reader;
pub mod reader;
pub mod model;
pub mod widget;
pub mod text_writer;
pub mod text_reader;
pub mod events;
