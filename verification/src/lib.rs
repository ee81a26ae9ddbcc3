//! The logic of `provenex-ingest`, which uploads OpenTelemetry GenAI captures to a verdict
//! service and can keep their content from leaving the machine.
//!
//! - [`text`], [`order`] and [`paths`] hold what the rest is built from: texts and numbers,
//!   sorting by key, and paths.
//! - [`json`] is the JSON tree that payloads and responses are read into, [`canonical`] its
//!   canonical text, [`apart`] what the text tells of the value, and [`codec`] the boundary to
//!   `serde_json`.
//! - [`digest`] and [`redact`] replace the content of a payload by keyed digests.
//! - [`cli`] reads the command line and the environment, and [`files`] picks the captures of a
//!   directory.
//! - [`forward`] makes requests and reads responses; [`report`], with the words of [`page`],
//!   presents verdicts, on pages that [`contained`] shows to be self-contained; [`feedback`]
//!   shares summaries of them, and [`upload`] takes one file through all of this.
//!
//! Every function states what it returns over mathematical models of its arguments. Proof
//! functions whose names begin with `law_` state what holds across functions.
pub mod apart;
pub mod canonical;
pub mod cli;
pub mod codec;
pub mod contained;
pub mod digest;
pub mod feedback;
pub mod files;
pub mod forward;
pub mod json;
pub mod order;
pub mod page;
pub mod paths;
pub mod redact;
pub mod report;
pub mod text;
pub mod upload;
