pub mod chunk_table;
pub mod chunks;
pub mod codegen;
pub mod color;
pub mod files;
pub mod model;
pub mod text;
pub mod textops;
pub mod pixels;
