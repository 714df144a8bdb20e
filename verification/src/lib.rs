//! Wavyte: deterministic programmatic video composition.
pub mod error;
pub mod text;
pub mod timeline;
pub mod audio;
pub mod time;
pub mod pixel;
pub mod blur;
pub mod plan;
pub mod fingerprint;
pub mod scheduler;
pub mod property;
pub mod intern;
pub mod sink;
pub mod lexer;
pub mod ast;
pub mod parser;
pub mod assets;
pub mod bytecode;
pub mod lower;
pub mod bind;
pub mod topo;
pub mod compile_expr;
pub mod session;
pub mod schema;
pub mod pool;
pub mod random;
pub mod tree;
pub mod audio_segments;
pub mod graph;
pub mod compile;
pub mod fuse;
pub mod transition;
pub mod encode;
pub mod keyframes;
pub mod normalize;
pub mod registry;
pub mod composition;
pub mod color;
pub mod lanes;
