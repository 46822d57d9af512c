//! Lifecycle engine of an embedded vector and text store.

pub mod accounting;
pub mod acknowledgment;
pub mod assembly_cache;
pub mod budget;
pub mod candidates;
pub mod clock;
pub mod control;
pub mod control_laws;
pub mod corpus;
pub mod cross_fill;
pub mod cross_laws;
pub mod cross_lexical;
pub mod cross_score;
pub mod decision_laws;
pub mod durability;
pub mod error;
pub mod exhaustive;
pub mod expansion;
pub mod fault;
pub mod fusion;
pub mod graph_cache;
pub mod hybrid;
pub mod hybrid_laws;
pub mod hybrid_search;
pub mod identity;
pub mod ids;
pub mod journal_laws;
pub mod legs;
pub mod lexical;
pub mod lexical_laws;
pub mod lexical_search;
pub mod lifecycle_laws;
pub mod lock;
pub mod materialize;
pub mod metadata;
pub mod naming_laws;
pub mod observations;
pub mod open;
pub mod options;
pub mod outcome_laws;
pub mod paths;
pub mod plan;
pub mod poll;
pub mod pool;
pub mod prepared;
pub mod prepared_lexical;
pub mod rank;
pub mod reading_laws;
pub mod rescored_scan;
pub mod rescoring_laws;
pub mod resource_laws;
pub mod round;
pub mod scan_laws;
pub mod score;
pub mod search;
pub mod snapshot;
pub mod store;
pub mod structured;
pub mod text;
pub mod text_laws;
pub mod traversal;
pub mod vector_laws;
pub mod vector_search;
pub mod wal_facts;
pub mod watch;
pub mod with_text;

use vstd::prelude::*;

verus! {

} // verus!
