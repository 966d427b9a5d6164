//! Diagnostics data: what a reported problem carries, and the engine that
//! resolves its position against the source map. Rendering and printing
//! belong to the consumer, not to this crate.

use std::rc::Rc;

use vstd::prelude::*;

use crate::source_map::SourceMap;
use crate::span::Span;

verus! {

/// The severity of a diagnostic.
#[derive(Clone, Copy, Debug, PartialEq, Eq, Structural)]
pub enum Level {
    Error,
    Warning,
    Info,
}

/// A reported problem: its severity, its message, and the span of source
/// it points at.
pub struct Diagnostic {
    /// The severity of the diagnostic.
    pub level: Level,
    /// The message shown to the user.
    pub message: String,
    /// The source extent the diagnostic points at.
    pub span: Span,
}

/// Resolves diagnostic positions against the source map shared with the
/// rest of the compiler.
pub struct DiagnosticsEngine {
    /// The map of all loaded files.
    pub source_map: Rc<SourceMap>,
}

impl DiagnosticsEngine {
    /// Creates an engine over the given source map.
    pub fn new(source_map: Rc<SourceMap>) -> (r: DiagnosticsEngine)
        ensures
            r.source_map == source_map,
    {
        DiagnosticsEngine { source_map }
    }
}

} // verus!
