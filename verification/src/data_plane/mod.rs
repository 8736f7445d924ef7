//! The data plane's evidence: the days that were read, one replay of the busiest in one go,
//! the same replay cut into chunks, and the document that reports them.

pub mod apply;
pub mod report;
pub mod sections;
