//! OpenCode Zen and Go surfaces.
//!
//! Zen and Go keep separate identities, endpoints, and catalogs. Both use the
//! OpenCode credential; Go additionally sends a stable conversation session
//! header on every request.
use super::catalog::ServiceId;
use vstd::prelude::*;

verus! {

/// Which OpenCode surface an adapter talks to.
#[derive(Debug, Clone, Copy, PartialEq, Eq, Structural)]
pub enum OpenCodeSurface {
    /// OpenCode Zen.
    Zen,
    /// OpenCode Go.
    Go,
}

impl OpenCodeSurface {
    /// The service identity this surface serves.
    pub fn service(self) -> (service: ServiceId)
        ensures
            service == (match self {
                OpenCodeSurface::Zen => ServiceId::OpenCode,
                OpenCodeSurface::Go => ServiceId::OpenCodeGo,
            }),
    {
        match self {
            OpenCodeSurface::Zen => ServiceId::OpenCode,
            OpenCodeSurface::Go => ServiceId::OpenCodeGo,
        }
    }

    /// The API base URL of this surface.
    pub fn base(self) -> (url: &'static str)
        ensures
            url@ == (match self {
                OpenCodeSurface::Zen => "https://opencode.ai/zen/v1"@,
                OpenCodeSurface::Go => "https://opencode.ai/zen/go/v1"@,
            }),
    {
        match self {
            OpenCodeSurface::Zen => "https://opencode.ai/zen/v1",
            OpenCodeSurface::Go => "https://opencode.ai/zen/go/v1",
        }
    }

    /// Whether conversations on this surface carry a session header.
    pub fn uses_sessions(self) -> (sessions: bool)
        ensures
            sessions == (self == OpenCodeSurface::Go),
    {
        match self {
            OpenCodeSurface::Zen => false,
            OpenCodeSurface::Go => true,
        }
    }
}

} // verus!
