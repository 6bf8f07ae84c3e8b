//! The parts of the driver generator that compute: documentation comments,
//! locating errors in a definition, and the model of a definition.

pub mod doc_comment;
pub mod error_reporting;
pub mod bit_range;
pub mod access;
pub mod flow_control;
pub mod case;
pub mod naming;
pub mod target_type;
pub mod order;
pub mod field;
pub mod members;
pub mod source_text;
pub mod common_structure;
pub mod field_order;
pub mod definition;
pub mod command;
pub mod types;
