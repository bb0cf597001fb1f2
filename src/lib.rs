//! A YAML document composer and decomposer.
//!
//! The composer turns a stream of parse events into documents whose nodes
//! live in an index-addressed arena, resolving anchors and aliases; the
//! decomposer turns a document back into events, labelling the nodes that
//! are shared.
use vstd::prelude::*;

pub mod api;
pub mod composed;
pub mod dumper;
pub mod fmt;
pub mod laws;
pub mod loader;
pub mod success;
pub mod yaml;

pub use crate::api::{
    yaml_alias_event_initialize, yaml_document_add_mapping, yaml_document_add_scalar,
    yaml_document_add_sequence, yaml_document_append_mapping_pair,
    yaml_document_append_sequence_item, yaml_document_delete, yaml_document_end_event_initialize,
    yaml_document_get_node, yaml_document_get_root_node, yaml_document_initialize,
    yaml_document_start_event_initialize, yaml_emitter_initialize,
    yaml_mapping_end_event_initialize, yaml_mapping_start_event_initialize, yaml_mark_zero,
    yaml_parser_initialize, yaml_scalar_event_initialize, yaml_sequence_end_event_initialize,
    yaml_sequence_start_event_initialize, yaml_stream_end_event_initialize,
    yaml_stream_start_event_initialize,
};
pub use crate::dumper::{yaml_emitter_close, yaml_emitter_dump, yaml_emitter_emit, yaml_emitter_open};
pub use crate::fmt::WriteToPtr;
pub use crate::loader::yaml_parser_load;
pub use crate::success::{Failure, Success};
pub use crate::yaml::{
    UnnamedYamlDocumentTTagDirectives, UnnamedYamlEventTData, UnnamedYamlEventTdataAlias,
    UnnamedYamlEventTdataDocumentEnd, UnnamedYamlEventTdataDocumentStart,
    UnnamedYamlEventTdataDocumentStartTagDirectives, UnnamedYamlEventTdataMappingStart,
    UnnamedYamlEventTdataScalar, UnnamedYamlEventTdataSequenceStart,
    UnnamedYamlEventTdataStreamStart, UnnamedYamlNodeTData, UnnamedYamlNodeTDataMapping,
    UnnamedYamlNodeTDataScalar, UnnamedYamlNodeTDataSequence, YamlAliasDataT, YamlAnchorsT,
    YamlBufferT, YamlDocumentT, YamlEmitterT, YamlEncodingT, YamlErrorTypeT, YamlEventT,
    YamlEventTypeT, YamlMappingStyleT, YamlMarkT, YamlNodeItemT, YamlNodePairT, YamlNodeT,
    YamlNodeTypeT, YamlParserT, YamlScalarStyleT, YamlSequenceStyleT, YamlStackT,
    YamlTagDirectiveT, YamlVersionDirectiveT,
};
