pub mod environments;
pub mod instructions_construct;
pub mod instructions_executers;
pub mod literals;
pub mod machine;
pub mod syntax_tree;
pub mod tokens;
pub mod rules;
