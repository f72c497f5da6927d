//! The report renderers: LaTeX escaping and number formatting, the computed
//! sections, editorial placeholder substitution, narration with its
//! grounding guardrail, and the risk register.

pub mod compile;
pub mod document;
pub mod editorial;
pub mod narrative;
pub mod power;
pub mod risk;
pub mod sections;
pub mod status;
pub mod tex;
pub mod topology;
