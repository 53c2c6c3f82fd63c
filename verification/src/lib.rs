//! Collection of contribution metrics for the repositories of an organisation:
//! a replayable query cache, cursor pagination, metric producers, a bounded row
//! channel and a tabular sink, together with the report stage that reads the
//! tables back.

pub mod cache;
pub mod channel;
pub mod error;
pub mod metrics;
pub mod paginate;
pub mod pipeline;
pub mod report;
pub mod sink;
pub mod text;
