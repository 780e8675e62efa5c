//! Records of the changes to what a model sees.

use vstd::prelude::*;

use crate::json::Json;
use crate::json_model::JsonModel;

verus! {

/// A durable record of one change to the context that a model sees. The whole transcript is
/// kept with the task; a record only says how a surface was derived from it, and so stays small
/// enough to be kept forever.
#[derive(Debug)]
pub struct ContextEventRecord {
    pub kind: String,
    pub compaction_id: String,
    pub generation: u64,
    pub source_start: Option<String>,
    pub source_end: Option<String>,
    pub source_hash: String,
    pub shadowed_tokens: usize,
    pub surface_tokens: usize,
    pub occurred_at: i64,
    pub payload: Json,
}

/// A record of one change to the context.
pub struct ContextEventModel {
    pub kind: Seq<char>,
    pub compaction_id: Seq<char>,
    pub generation: u64,
    pub source_start: Option<Seq<char>>,
    pub source_end: Option<Seq<char>>,
    pub source_hash: Seq<char>,
    pub shadowed_tokens: usize,
    pub surface_tokens: usize,
    pub occurred_at: i64,
    pub payload: JsonModel,
}

impl DeepView for ContextEventRecord {
    type V = ContextEventModel;

    open spec fn deep_view(&self) -> ContextEventModel {
        ContextEventModel {
            kind: self.kind@,
            compaction_id: self.compaction_id@,
            generation: self.generation,
            source_start: self.source_start.deep_view(),
            source_end: self.source_end.deep_view(),
            source_hash: self.source_hash@,
            shadowed_tokens: self.shadowed_tokens,
            surface_tokens: self.surface_tokens,
            occurred_at: self.occurred_at,
            payload: self.payload.deep_view(),
        }
    }
}

impl ContextEventRecord {
    /// The record of one change.
    pub fn new(
        kind: &str,
        compaction_id: &str,
        generation: u64,
        source_start: Option<String>,
        source_end: Option<String>,
        source_hash: &str,
        shadowed_tokens: usize,
        surface_tokens: usize,
        occurred_at: i64,
        payload: Json,
    ) -> (r: Self)
        ensures
            r.deep_view() == (ContextEventModel {
                kind: kind@,
                compaction_id: compaction_id@,
                generation,
                source_start: source_start.deep_view(),
                source_end: source_end.deep_view(),
                source_hash: source_hash@,
                shadowed_tokens,
                surface_tokens,
                occurred_at,
                payload: payload.deep_view(),
            }),
    {
        ContextEventRecord {
            kind: kind.to_owned(),
            compaction_id: compaction_id.to_owned(),
            generation,
            source_start,
            source_end,
            source_hash: source_hash.to_owned(),
            shadowed_tokens,
            surface_tokens,
            occurred_at,
            payload,
        }
    }
}

} // verus!
