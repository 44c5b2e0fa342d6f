pub mod markup;
pub mod model;
pub mod output;
pub mod render;
pub mod textops;
