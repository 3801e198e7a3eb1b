//! An ISO 8583 payment switch core: message codecs, routing and the
//! switching decisions, each stated and proved against a model.
pub mod numeric;
pub mod tables;
pub mod iso_fields;
pub mod text;
pub mod canonical;
pub mod dialect;
pub mod proto;
pub mod layout_roundtrip;
pub mod routing;
pub mod state;
pub mod guard;
pub mod engine;
pub mod framing;
pub mod thales;
pub mod iso_parser;
pub mod hsm;
pub mod settlement;
pub mod simulator;
pub mod ledger;
pub mod telemetry;
pub mod edge;
pub mod vault;
pub mod ingress;
