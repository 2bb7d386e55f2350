pub mod bun;
pub mod git;
pub mod js_workspace;
pub mod lockfiles;
