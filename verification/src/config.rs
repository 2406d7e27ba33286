//! Cache configuration expressed as a mode, a last-modified freshness
//! heuristic, and a switch for purging cargo-cult directives.

use vstd::prelude::*;

verus! {

/// Indicates the mode the cache is operating in.
///
/// This influences the impact of things like the `private` or `s-maxage`
/// directives or the `Authorization` header on storability.
#[derive(Clone, Copy, Debug, PartialEq, Eq, Hash, Structural)]
pub enum Mode {
    /// A shared cache e.g. for a proxy or some other multi-user cache.
    Shared,
    /// A private cache e.g. for a web browser.
    Private,
}

impl Mode {
    /// The default mode, [`Mode::Shared`].
    pub fn default() -> (r: Self)
        ensures
            r == Mode::Shared,
    {
        Mode::Shared
    }

    /// If the mode is [`Mode::Shared`].
    pub fn is_shared(self) -> (r: bool)
        ensures
            r == (self == Mode::Shared),
    {
        match self {
            Mode::Shared => true,
            Mode::Private => false,
        }
    }

    /// If the mode is [`Mode::Private`].
    pub fn is_private(self) -> (r: bool)
        ensures
            r == (self == Mode::Private),
    {
        match self {
            Mode::Shared => false,
            Mode::Private => true,
        }
    }
}

/// Considers entries fresh for a fraction of the time since they were last
/// modified; the fraction is held in thousandths, between 0 and 1000.
#[derive(Clone, Copy, Debug, PartialEq, Eq, Structural)]
pub struct LastModifiedHeuristic {
    /// Thousandths of the time since last modification granted as freshness.
    pub per_mille: u16,
}

impl LastModifiedHeuristic {
    /// A heuristic from a fraction given in thousandths; at most 1000 (the
    /// whole time since last modification).
    pub fn new(per_mille: u16) -> (r: Option<Self>)
        ensures
            per_mille <= 1000 ==> r == Some(LastModifiedHeuristic { per_mille }),
            per_mille > 1000 ==> r is None,
    {
        if per_mille <= 1000 {
            Some(LastModifiedHeuristic { per_mille })
        } else {
            None
        }
    }

    /// A tenth of the time since last modification.
    pub fn default() -> (r: Self)
        ensures
            r == (LastModifiedHeuristic { per_mille: 100u16 }),
    {
        LastModifiedHeuristic { per_mille: 100 }
    }
}

/// Configuration of a cache: its mode, its freshness heuristic, and whether
/// ill-advised legacy directives are purged.
#[derive(Clone, Copy, Debug, PartialEq, Eq, Structural)]
pub struct Config {
    /// The mode the cache operates in.
    pub mode: Mode,
    /// Freshness granted when only `Last-Modified` is available.
    pub last_modified: LastModifiedHeuristic,
    /// Ignores the effect of some ill-advised directive usage.
    pub ignore_cargo_cult: bool,
}

impl Config {
    /// The default cache config: a shared cache, a tenth of the time since
    /// last modification, no purge.
    pub fn default() -> (r: Self)
        ensures
            r == (Config {
                mode: Mode::Shared,
                last_modified: LastModifiedHeuristic { per_mille: 100u16 },
                ignore_cargo_cult: false,
            }),
    {
        Config {
            mode: Mode::Shared,
            last_modified: LastModifiedHeuristic { per_mille: 100 },
            ignore_cargo_cult: false,
        }
    }

    /// Sets the mode that the cache operates in.
    #[must_use]
    pub fn mode(self, mode: Mode) -> (r: Self)
        ensures
            r == (Config { mode, ..self }),
    {
        Config { mode, ..self }
    }

    /// Sets the cache's last-modified freshness heuristic.
    #[must_use]
    pub fn last_modified_heuristic(self, last_modified: LastModifiedHeuristic) -> (r: Self)
        ensures
            r == (Config { last_modified, ..self }),
    {
        Config { last_modified, ..self }
    }

    /// Ignores the effect of some ill-advised directive usage.
    #[must_use]
    pub fn ignore_cargo_cult(self, ignore: bool) -> (r: Self)
        ensures
            r == (Config { ignore_cargo_cult: ignore, ..self }),
    {
        Config { ignore_cargo_cult: ignore, ..self }
    }
}

} // verus!
