//! Store-open and search configuration.

use crate::durability::CommitTier;
use crate::durability::DurabilityMode;
use crate::error::GraphProfileError;
use crate::error::GraphSearchError;
use crate::error::QueryError;
use crate::error::Schema;
use crate::fusion::FusionLeg;
use crate::ids::EpochIdentity;
use vstd::prelude::*;
use vstd::std_specs::convert::FromSpecImpl;

verus! {

/// Default grace period, in nanoseconds, that close gives admitted readers
/// before it cancels them.
pub const DEFAULT_READER_DRAIN_TIMEOUT: u128 = 250_000_000;

/// Fault at a hybrid leg, for tests.
#[derive(Clone, Copy, Debug, PartialEq, Eq, Structural)]
pub enum HybridLegTestFault {
    /// Panics after the named leg starts and before it can publish output.
    Panic(FusionLeg),
}

/// Facts that one parallel hybrid execution leaves.
#[derive(Clone, Debug, PartialEq, Eq)]
pub struct HybridExecutionReceipt {
    /// Thread that executed vector work.
    pub vector_thread: u64,
    /// Name of the lexical worker.
    pub lexical_thread_name: Option<String>,
    /// The vector leg reached a terminal result before return.
    pub vector_completed: bool,
    /// The lexical leg reached a terminal result before return.
    pub lexical_completed: bool,
}

/// Lifecycle state of one store handle.
#[derive(Clone, Copy, Debug, PartialEq, Eq, Structural)]
pub enum StoreState {
    /// New calls may be admitted.
    Open,
    /// New calls are rejected while admitted work drains.
    Closing,
    /// Teardown completed; only close and state calls remain valid.
    Closed,
}

/// Filesystem authority requested for one store handle.
#[derive(Clone, Copy, Debug, PartialEq, Eq, Structural)]
pub enum AccessMode {
    /// Own the store's one writer slot.
    ReadWrite,
    /// Load only the last committed snapshot without filesystem mutation.
    ReadOnly,
}

/// A declared embedding and tokenizer identity.
#[derive(Clone, Debug, PartialEq, Eq)]
pub struct StoreEpoch {
    pub identity: EpochIdentity,
    pub label: String,
}

/// A tokenizer configuration by its name.
#[derive(Clone, Debug, PartialEq, Eq)]
pub struct TokenizerConfig {
    pub name: String,
}

/// Store-open configuration.
#[derive(Clone, Debug, PartialEq, Eq)]
pub struct OpenOptions {
    pub access_mode: AccessMode,
    pub durability_mode: DurabilityMode,
    pub commit_tier: CommitTier,
    /// Nanoseconds.
    pub reader_drain_timeout: u128,
    pub max_resident_bytes: u64,
    pub max_temp_bytes: u64,
    pub epoch: Option<StoreEpoch>,
    pub tokenizer: Option<TokenizerConfig>,
    pub schema: Option<Schema>,
}

impl OpenOptions {
    /// The configuration that nothing was selected in.
    pub open spec fn spec_default(access_mode: AccessMode) -> OpenOptions {
        OpenOptions {
            access_mode,
            durability_mode: DurabilityMode::Derived,
            commit_tier: CommitTier::Ordered,
            reader_drain_timeout: DEFAULT_READER_DRAIN_TIMEOUT,
            max_resident_bytes: u64::MAX,
            max_temp_bytes: u64::MAX,
            epoch: None,
            tokenizer: None,
            schema: None,
        }
    }

    /// The default read-write, derived-durability configuration.
    pub fn new() -> (options: OpenOptions)
        ensures
            options == Self::spec_default(AccessMode::ReadWrite),
    {
        OpenOptions {
            access_mode: AccessMode::ReadWrite,
            durability_mode: DurabilityMode::Derived,
            commit_tier: CommitTier::Ordered,
            reader_drain_timeout: DEFAULT_READER_DRAIN_TIMEOUT,
            max_resident_bytes: u64::MAX,
            max_temp_bytes: u64::MAX,
            epoch: None,
            tokenizer: None,
            schema: None,
        }
    }

    /// A pure-read configuration that takes no writer lock.
    pub fn read_only() -> (options: OpenOptions)
        ensures
            options == Self::spec_default(AccessMode::ReadOnly),
    {
        let mut options = Self::new();
        options.access_mode = AccessMode::ReadOnly;
        options
    }

    /// Selects the durability mode and per-commit tier.
    pub fn with_durability(self, mode: DurabilityMode, tier: CommitTier) -> (options: OpenOptions)
        ensures
            options == (OpenOptions { durability_mode: mode, commit_tier: tier, ..self }),
    {
        OpenOptions { durability_mode: mode, commit_tier: tier, ..self }
    }

    /// Sets the grace period that close gives admitted readers.
    pub fn with_reader_drain_timeout(self, timeout: u128) -> (options: OpenOptions)
        ensures
            options == (OpenOptions { reader_drain_timeout: timeout, ..self }),
    {
        OpenOptions { reader_drain_timeout: timeout, ..self }
    }

    /// Sets the ceiling for live engine-owned bytes.
    pub fn with_max_resident_bytes(self, bytes: u64) -> (options: OpenOptions)
        ensures
            options == (OpenOptions { max_resident_bytes: bytes, ..self }),
    {
        OpenOptions { max_resident_bytes: bytes, ..self }
    }

    /// Sets the ceiling for live temporary bytes.
    pub fn with_max_temp_bytes(self, bytes: u64) -> (options: OpenOptions)
        ensures
            options == (OpenOptions { max_temp_bytes: bytes, ..self }),
    {
        OpenOptions { max_temp_bytes: bytes, ..self }
    }

    /// Declares the user-column schema when creating a store. On reopen a
    /// declaration must match the persisted schema.
    pub fn with_schema(self, schema: Schema) -> (options: OpenOptions)
        ensures
            options == (OpenOptions { schema: Some(schema), ..self }),
    {
        OpenOptions { schema: Some(schema), ..self }
    }

    /// Declares the embedding and tokenizer identity used by this handle.
    pub fn with_epoch(self, epoch: StoreEpoch) -> (options: OpenOptions)
        ensures
            options == (OpenOptions { epoch: Some(epoch), ..self }),
    {
        OpenOptions { epoch: Some(epoch), ..self }
    }

    /// Selects the tokenizer configuration used for indexing and queries.
    pub fn with_tokenizer(self, tokenizer: TokenizerConfig) -> (options: OpenOptions)
        ensures
            options == (OpenOptions { tokenizer: Some(tokenizer), ..self }),
    {
        OpenOptions { tokenizer: Some(tokenizer), ..self }
    }
}

impl Default for OpenOptions {
    fn default() -> (options: OpenOptions)
        ensures
            options == OpenOptions::spec_default(AccessMode::ReadWrite),
    {
        OpenOptions::new()
    }
}

/// Dataset shape that a graph traversal is tuned for.
#[derive(Clone, Copy, Debug, PartialEq, Eq, Structural)]
pub enum GraphSearchProfile {
    SiftClass,
    AngularClass,
}

/// Traversal controls of a query that selects the graph tier.
#[derive(Clone, Copy, Debug, PartialEq, Eq, Structural)]
pub struct GraphSearchOptions {
    pub profile: GraphSearchProfile,
    pub ef: Option<usize>,
    pub seed: u64,
    pub cancel_after_hops: Option<usize>,
}

impl GraphSearchOptions {
    /// An adaptive-width request for one profile.
    pub open spec fn spec_new(profile: GraphSearchProfile) -> GraphSearchOptions {
        GraphSearchOptions { profile, ef: None, seed: 0, cancel_after_hops: None }
    }

    /// Creates an adaptive-width graph request for one profile.
    pub fn new(profile: GraphSearchProfile) -> (options: GraphSearchOptions)
        ensures
            options == Self::spec_new(profile),
    {
        GraphSearchOptions { profile, ef: None, seed: 0, cancel_after_hops: None }
    }

    /// Overrides the profile's adaptive traversal width.
    pub fn with_ef(self, ef: usize) -> (options: GraphSearchOptions)
        ensures
            options == (GraphSearchOptions { ef: Some(ef), ..self }),
    {
        GraphSearchOptions { ef: Some(ef), ..self }
    }

    /// Selects the query-preparation seed.
    pub fn with_seed(self, seed: u64) -> (options: GraphSearchOptions)
        ensures
            options == (GraphSearchOptions { seed, ..self }),
    {
        GraphSearchOptions { seed, ..self }
    }

    /// Arms cancellation behind a number of hops, for tests.
    pub fn with_cancel_after_hops(self, hops: usize) -> (options: GraphSearchOptions)
        ensures
            options == (GraphSearchOptions { cancel_after_hops: Some(hops), ..self }),
    {
        GraphSearchOptions { cancel_after_hops: Some(hops), ..self }
    }
}

impl Default for GraphSearchOptions {
    fn default() -> (options: GraphSearchOptions)
        ensures
            options == GraphSearchOptions::spec_new(GraphSearchProfile::SiftClass),
    {
        GraphSearchOptions::new(GraphSearchProfile::SiftClass)
    }
}

/// Options of an automatic graph query: the published profile's, or its failure.
pub fn auto_graph_search_options(profile: Result<GraphSearchProfile, GraphProfileError>) -> (result:
    Result<GraphSearchOptions, QueryError>)
    ensures
        result == match profile {
            Ok(published) => Ok(GraphSearchOptions::spec_new(published)),
            Err(error) => Err(QueryError::Graph(GraphSearchError::Profile(error))),
        },
{
    match profile {
        Ok(published) => Ok(GraphSearchOptions::new(published)),
        Err(error) => Err(QueryError::Graph(GraphSearchError::Profile(error))),
    }
}

/// Execution tier of one query.
#[derive(Clone, Copy, Debug, PartialEq, Eq, Structural)]
pub enum SearchTier {
    /// Traverse the graph of each sealed segment that has one published.
    Auto,
    /// Exhaustively score full-precision vectors.
    Exact,
    /// Exhaustively scan sealed segments as they are stored.
    Scan,
    /// Traverse every sealed segment's graph.
    Graph(GraphSearchOptions),
}

impl Default for SearchTier {
    fn default() -> (tier: SearchTier)
        ensures
            tier == SearchTier::Auto,
    {
        SearchTier::Auto
    }
}

/// Scan worker budget; zero leaves the choice to the store.
#[derive(Clone, Copy, Debug, PartialEq, Eq, Structural)]
pub struct ScanOptions {
    pub thread_budget: usize,
}

/// Search controls: the scan worker budget and the tier selection.
#[derive(Clone, Copy, Debug, PartialEq, Eq, Structural)]
pub struct SearchOptions {
    pub scan: ScanOptions,
    pub tier: Option<SearchTier>,
}

/// Whether the segments of one query share a competitive bound.
#[derive(Clone, Copy, Debug, PartialEq, Eq, Structural)]
pub enum GraphBoundMode {
    Shared,
    Independent,
}

impl SearchOptions {
    /// Creates options with no tier preference.
    pub fn new(scan: ScanOptions) -> (options: SearchOptions)
        ensures
            options == (SearchOptions { scan, tier: None }),
    {
        SearchOptions { scan, tier: None }
    }

    /// Selects one tier.
    pub fn with_tier(self, tier: SearchTier) -> (options: SearchOptions)
        ensures
            options == (SearchOptions { tier: Some(tier), ..self }),
    {
        SearchOptions { tier: Some(tier), ..self }
    }

    /// The scan worker controls.
    pub fn scan(self) -> (scan: ScanOptions)
        ensures
            scan == self.scan,
    {
        self.scan
    }

    /// The tier in effect.
    pub open spec fn spec_tier(self) -> SearchTier {
        match self.tier {
            Some(tier) => tier,
            None => SearchTier::Auto,
        }
    }

    /// The tier in effect: automatic where the caller has no preference.
    pub fn tier(self) -> (tier: SearchTier)
        ensures
            tier == self.spec_tier(),
    {
        match self.tier {
            Some(tier) => tier,
            None => SearchTier::Auto,
        }
    }

    /// The tier that the caller asked for, where there is one.
    pub fn explicit_tier(self) -> (tier: Option<SearchTier>)
        ensures
            tier == self.tier,
    {
        self.tier
    }
}

impl FromSpecImpl<ScanOptions> for SearchOptions {
    open spec fn obeys_from_spec() -> bool {
        true
    }

    open spec fn from_spec(scan: ScanOptions) -> SearchOptions {
        SearchOptions { scan, tier: None }
    }
}

impl From<ScanOptions> for SearchOptions {
    fn from(scan: ScanOptions) -> (options: SearchOptions) {
        SearchOptions::new(scan)
    }
}

} // verus!
