pub mod git;
pub mod split;
