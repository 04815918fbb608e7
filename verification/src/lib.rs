pub mod algebra;
pub mod basis;
pub mod config;
pub mod existence;
pub mod frame;
pub mod ingest;
pub mod integer;
pub mod layout;
pub mod moments;
pub mod natural;
pub mod optimality;
pub mod picture;
pub mod projector;
pub mod rational;
pub mod regression;
pub mod root;
pub mod selector;
pub mod shift;
pub mod solve;
pub mod store;
pub mod text;
pub mod window;
