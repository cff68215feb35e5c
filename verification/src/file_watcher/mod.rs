//! Watching files: which changes matter, how bursts of them are held back, and
//! which directories are watched for whom.

pub mod events;
pub mod roots;
pub mod throttle;
