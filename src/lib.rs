//! Replays the checks of a hosted CI configuration locally: configuration
//! texts are normalised into workflows, the workflows that apply to the
//! repository's situation are kept, their tasks are merged without repeated
//! commands, and the tasks are run one after another until one fails.
pub mod assemble;
pub mod execute;
pub mod hook;
pub mod model;
pub mod order;
pub mod parse;
pub mod plan;
pub mod resolve;
pub mod yaml;
