pub mod buffer;
pub mod text;
pub mod table;
pub mod shader_parser;
pub mod files;
pub mod path;
pub mod object;
pub mod ecs;
pub mod descriptor;
pub mod logger;
pub mod revier_logger;
pub mod mouse;
pub mod uniforms;
pub mod layout;
pub mod padding;
pub mod light;
pub mod camera;
pub mod atlas;
pub mod texture;
pub mod window;
