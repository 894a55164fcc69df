//! A small query language over JSON-shaped values.
pub mod command;
pub mod laws;
pub mod pipeline;
pub mod text;
pub mod tokenize;
pub mod value;

pub use command::{Command, GetArrayElements, GetKey, ListKeys, Step};
pub use laws::{
    lemma_elements_degrade_non_arrays, lemma_empty_pipeline, lemma_key_drops_non_objects,
    lemma_keys_drop_non_objects, lemma_run_concat, lemma_run_keeps_well_formed, lemma_stage_concat,
    lemma_stage_keeps_well_formed, lemma_step_keeps_well_formed,
};
pub use pipeline::{evaluate, evaluate_all, query_json, Evaluation};
pub use tokenize::tokenize;
pub use value::{Tree, Value};
