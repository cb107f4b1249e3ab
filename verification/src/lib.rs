//! State core of a tiling window manager.
//!
//! The library tracks every window under management, groups windows into
//! focus-cycling stacks (containers), arranges the stacks across a work
//! area, and keeps the focus and resize model consistent while windows are
//! created, closed, floated, maximized or reassigned.
//!
//! All interaction with the operating system is kept outside: mutating
//! operations return sequences of [`OsAction`] values that a caller
//! performs, and queries that depend on the OS (window titles, liveness,
//! the foreground window) take the queried data as arguments.

use vstd::prelude::*;

pub mod rect;
pub mod ring;
pub mod text;
pub mod window;
pub mod container;
pub mod styles;
pub mod classification;
pub mod layout;
pub mod workspace;
pub mod utils;

verus! {

/// The recoverable error conditions of the state core. Absence of
/// optional data is modeled explicitly; no operation panics on it.
#[derive(Debug, Clone, Copy, PartialEq, Eq, Structural)]
pub enum WmError {
    /// There is no container at the requested position.
    NoContainer,
    /// There is no window at the requested position.
    NoWindow,
    /// There is no monocle container with a recorded index at which to
    /// reintegrate it.
    NoMonocleRestoreIndex,
    /// The custom layout does not designate a primary column.
    NoPrimaryColumn,
    /// There is no floating window.
    NoFloatingWindow,
    /// An OS attribute query failed while it was needed.
    OsQueryFailed,
}

/// Default workspace padding in pixels, applied when none is configured.
pub const DEFAULT_WORKSPACE_PADDING: i32 = 10;

/// Default container padding in pixels, applied when none is configured.
pub const DEFAULT_CONTAINER_PADDING: i32 = 10;

} // verus!
