//! A small key-value message server: the wire format of its requests, the store that
//! answers them, and a view that reads several byte slices as one sequence.

pub mod text;
pub mod package;
pub mod store;
pub mod request;
pub mod view;
