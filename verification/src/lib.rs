//! Event correlation engine for mobile-session telemetry.
//!
//! The library reconstructs causal chains among timestamped session events
//! (user-interface interactions, API calls and responses, navigation and
//! screen changes). Its core joins events across a bounded time window,
//! scores each candidate link with a fixed-point confidence model, and
//! derives a dependency graph and summary statistics from the links.
//!
//! Timestamps arrive from telemetry as 64-bit floats that may be NaN or
//! infinite; the library models a reading as a [`event::Timestamp`], with an
//! explicit total order for sorting. Confidence scores are exact fixed-point
//! values in millionths, so every result is a deterministic function of the
//! event snapshot.

pub mod ast_analyzer;
pub mod business_logic;
pub mod correlator;
pub mod event;
pub mod laws;

pub use ast_analyzer::ComplexityMetrics;
pub use ast_analyzer::RustAstAnalyzer;
pub use business_logic::BusinessLogicPattern;
pub use business_logic::LogicCategory;
pub use business_logic::RustBusinessLogicAnalyzer;

pub use correlator::Correlation;
pub use correlator::CorrelationStats;
pub use correlator::Direction;
pub use correlator::RustCorrelator;
pub use event::Event;
pub use event::EventType;
pub use event::TimeDelta;
pub use event::Timestamp;
