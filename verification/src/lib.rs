//! Resolver for model-provider connection profiles.
//!
//! A provider profile describes how to reach one OpenAI-compatible HTTP API:
//! its base URL, wire-protocol variant, credential source, and extra headers.
//! This crate resolves, for a chosen profile and a snapshot of environment
//! variables, the full request URL, the API credential, and the final header
//! map after `${VAR}` placeholder substitution.

pub mod envtable;
pub mod headers;
pub mod profile;
pub mod strutil;
pub mod subst;

pub use envtable::EnvVars;
pub use headers::HeaderMap;
pub use profile::EnvVarError;
pub use profile::ModelProviderInfo;
pub use profile::WireApi;
pub use profile::built_in_model_providers;
pub use subst::substitute_env_vars;
