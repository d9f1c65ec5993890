//! The pure logic behind the MCP tools: positions in a file, labels, path
//! confinement, text edits, hover contents and symbol rendering.

pub mod confine;
pub mod dispatch;
pub mod edits;
pub mod hover;
pub mod labels;
pub mod locations;
pub mod position;
pub mod schemas;
pub mod symbols;
