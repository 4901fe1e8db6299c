//! Validates a declarative multi-service deployment descriptor and plans the
//! hand-off to an external orchestration tool.
//!
//! The descriptor is decoded from a YAML value tree under a closed-world
//! policy (unknown fields are rejected), semantically validated (accepted
//! version set, absolute volume-mount sources), re-serialized to a staging
//! artifact, and the external tool's outcome is interpreted.  Failures are
//! carried as a chain of context frames with a deduplicating formatter.

pub mod apply;
pub mod errors;
pub mod process;
pub mod serial;
pub mod schema;
pub mod text;
pub mod validate;
pub mod yaml;

pub use apply::{load_config, render_config};
pub use errors::{Error, FormattedError};
pub use process::{
    config_check_args, config_check_outcome, compose_program, plan_after_config, staging_path,
    stderr_tail, up_args, ProcessResult,
};
pub use schema::{
    decode_config, encode_config, ConfigV, Configuration, DecodeError, DecodeErrorV, DecodeReason,
    ServiceConfigurationMap, ServiceV, VolumeConfigurationMap, VolumeConfigurationType, VolumeV,
};
pub use text::str_eq;
pub use validate::validate_config;
pub use yaml::{Yaml, YamlV};
