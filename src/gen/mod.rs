pub mod template;
pub mod code;
pub mod encode;
pub mod module;
pub mod component;
