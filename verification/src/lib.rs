//! Static analysis of source trees: an index of declarations, the calls
//! between functions, and three text reports on them.
//!
//! A caller walks the source roots and parses each file; this crate takes
//! the parsed files into an index, finds the call sites of each function
//! body, traces what a function reaches, and prints the listing of all
//! declarations, the call graph from a root, or the source of one function.

pub mod alike;
pub mod calls;
pub mod copy;
pub mod declaration;
pub mod function;
pub mod listing;
pub mod mode;
pub mod order;
mod paths;
pub mod project;
pub mod report;
pub mod resolve;
pub mod scan;
pub mod service;
pub mod signature;
pub mod syntax;
pub mod text;
pub mod trace;
pub mod tree;

pub use calls::CallSite;
pub use declaration::TypeDeclaration;
pub use function::Function;
pub use mode::{Output, OutputMode, VisibilityFilter};
pub use project::{load_project, Project, TypeEntry};
pub use report::{
    generate_output, generate_output_multi_dir, generate_output_with_blacklist, generate_report,
};
pub use service::{
    resolve_directory, CallGraphRequest, ErrorResponse, InfoResponse, ListAllRequest,
    ProjectConfig, ProjectInfo, ProjectInfoResponse, SourceRequest, ToolCallResponse,
};
pub use trace::trace_calls;
