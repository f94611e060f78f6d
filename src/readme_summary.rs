//! The preprocessor itself: its name, the renderers it works with, and the
//! options it reads.

use vstd::prelude::*;
use crate::text::chars_of;

verus! {

/// The preprocessor that fills in the table of contents of index pages.
pub struct ReadmeSummary;

/// The options of a run. Both are off unless set.
#[derive(Clone, Copy, Debug, PartialEq, Eq)]
pub struct TocConfig {
    /// List entries whose name holds "draft" too.
    pub include_drafts: bool,
    /// Report each directory that is scanned.
    pub verbose_logging: bool,
}

/// Why a run was refused before it began.
#[derive(Clone, Copy, Debug, PartialEq, Eq)]
pub enum ConfigError {
    /// The `blow-up` option is set: the run fails on purpose.
    ForcedFailure,
}

/// The preprocessor's name: `readme-summary`.
pub open spec fn preprocessor_name() -> Seq<char> {
    seq!['r', 'e', 'a', 'd', 'm', 'e', '-', 's', 'u', 'm', 'm', 'a', 'r', 'y']
}

/// The one renderer that the preprocessor declines: `not-supported`.
pub open spec fn unsupported_renderer() -> Seq<char> {
    seq!['n', 'o', 't', '-', 's', 'u', 'p', 'p', 'o', 'r', 't', 'e', 'd']
}

/// The options that a run takes from its settings: `blow_up` tells whether
/// that option is present at all, the other two give an option's value when
/// it is present and a boolean.
pub open spec fn config_of(
    blow_up: bool,
    enable_draft: Option<bool>,
    enable_log: Option<bool>,
) -> Result<TocConfig, ConfigError> {
    if blow_up {
        Err(ConfigError::ForcedFailure)
    } else {
        Ok(
            TocConfig {
                include_drafts: enable_draft == Some(true),
                verbose_logging: enable_log == Some(true),
            },
        )
    }
}

impl ReadmeSummary {
    pub fn new() -> (r: ReadmeSummary) {
        ReadmeSummary
    }

    /// The name under which the book's settings configure this preprocessor.
    pub fn name(&self) -> (r: &'static str)
        ensures
            r@ == preprocessor_name(),
    {
        let r = "readme-summary";
        proof {
            reveal_strlit("readme-summary");
        }
        assert(r@ =~= preprocessor_name());
        r
    }

    /// Whether the preprocessor runs for the renderer of this name.
    pub fn supports_renderer(&self, renderer: &str) -> (r: bool)
        ensures
            r == (renderer@ != unsupported_renderer()),
    {
        let cs = chars_of(renderer);
        let refused = vec!['n', 'o', 't', '-', 's', 'u', 'p', 'p', 'o', 'r', 't', 'e', 'd'];
        assert(refused@ =~= unsupported_renderer());
        if cs.len() != refused.len() {
            return true;
        }
        let same = crate::text::matches_at(&cs, &refused, 0);
        assert(cs@.subrange(0, cs@.len() as int) =~= cs@);
        !same
    }

    /// The options of a run, or the forced failure when `blow-up` is set.
    pub fn configure(
        &self,
        blow_up: bool,
        enable_draft: Option<bool>,
        enable_log: Option<bool>,
    ) -> (r: Result<TocConfig, ConfigError>)
        ensures
            r == config_of(blow_up, enable_draft, enable_log),
    {
        if blow_up {
            return Err(ConfigError::ForcedFailure);
        }
        let include_drafts = match enable_draft {
            Some(v) => v,
            None => false,
        };
        let verbose_logging = match enable_log {
            Some(v) => v,
            None => false,
        };
        Ok(TocConfig { include_drafts, verbose_logging })
    }
}

} // verus!
