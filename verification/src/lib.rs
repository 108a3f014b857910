//! Lossless, schema-driven editing of Linux configuration files.
//!
//! A plugin parses a file (`/etc/hosts`, `sshd_config`, `pg_hba.conf`, UFW
//! rules) into a lossless concrete syntax tree, binds it to a generic
//! view-binding IR a UI can render, and applies edits that change only the
//! targeted tokens. Settings that live in the host app's store instead of a
//! file go through the same IR (see [`store`]).
pub mod cst;
pub mod text;
pub mod json;
pub mod plugin;
pub mod secret;
pub mod ir;
pub mod edit;
pub mod rows;
pub mod bind;
pub mod manifests;
pub mod store;
pub mod schema;
pub mod grammar;
pub mod hosts;
pub mod sshd;
pub mod columns;
pub mod pg_hba;
pub mod ufw;
pub mod laws;

pub use cst::{CstNode, SourceSpan, Span, SyntaxKind};
pub use edit::{BindError, ConfigDocument, ConfigPlugin, EditError, EditOp, ParseError};
pub use hosts::HostsPlugin;
pub use ir::{ConfigDocumentIr, FieldIr, RowIr, ShapeIr};
pub use json::{JsonNumber, JsonValue};
pub use pg_hba::PgHbaPlugin;
pub use schema::{
    validate_field_value, EnumOption, FieldDef, FieldType, PluginManifest, PluginMeta, RiskLevel, ShapeMeta,
    ValidatorDef, WidgetKind,
};
pub use sshd::SshdPlugin;
pub use ufw::UfwPlugin;
