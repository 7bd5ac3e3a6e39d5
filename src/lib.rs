//! Ownership and disposal core of a fine-grained reactive runtime: a tree of
//! scopes, each owning append-only node containers, contexts and cleanups.
pub mod hydration;
pub mod laws;
pub mod nodes;
pub mod runtime;
pub mod scope;

pub use hydration::{marker_span, HydrationContext, NodeMark, PendingFragment, SharedContext};
pub use runtime::Runtime;
pub use scope::{
    create_scope, run_scope, run_scope_undisposed, DisposalEvent, EffectId, ResourceId, Scope,
    ScopeDisposer, ScopeId, ScopeState, SignalId, StreamingResourceId,
};
