//! The configuration in use.

use std::sync::Arc;

use vstd::prelude::*;

use crate::config::error::ConfigError;
use crate::config::schema::GatewayConfig;
use crate::config::validation::{problem, validate};

verus! {

/// The configuration in use, and the file that it comes from.
///
/// Whoever holds a configuration keeps it; a reload puts a new one in its place for
/// those who ask later.
#[derive(Debug)]
pub struct ConfigWatcher {
    path: String,
    inner: Arc<GatewayConfig>,
}

/// The error that a configuration as it was read gives: that of the reading, or what is
/// wrong with the configuration.
pub open spec fn refused(read: Result<GatewayConfig, ConfigError>, e: ConfigError) -> bool {
    match read {
        Ok(cfg) => e matches ConfigError::Validation(m) && problem(cfg) == Some(m@),
        Err(reading) => e == reading,
    }
}

/// Whether a configuration as it was read can be used.
pub open spec fn usable(read: Result<GatewayConfig, ConfigError>) -> bool {
    read matches Ok(cfg) && problem(cfg) is None
}

fn accept(read: Result<GatewayConfig, ConfigError>) -> (r: Result<Arc<GatewayConfig>, ConfigError>)
    ensures
        r is Ok <==> usable(read),
        match r {
            Ok(cfg) => read == Ok::<GatewayConfig, ConfigError>(*cfg),
            Err(e) => refused(read, e),
        },
{
    match read {
        Ok(cfg) => match validate(&cfg) {
            Ok(_) => Ok(Arc::new(cfg)),
            Err(e) => Err(e),
        },
        Err(e) => Err(e),
    }
}

impl ConfigWatcher {
    /// The configuration in use.
    pub closed spec fn config(&self) -> GatewayConfig {
        *self.inner
    }

    /// The file that the configuration comes from.
    pub closed spec fn file(&self) -> Seq<char> {
        self.path@
    }

    #[verifier::type_invariant]
    spec fn holds_a_valid_configuration(&self) -> bool {
        problem(*self.inner) is None
    }

    /// Start with what was read from the file at `path`, if it can be used.
    pub fn load(path: String, read: Result<GatewayConfig, ConfigError>) -> (r: Result<
        Self,
        ConfigError,
    >)
        ensures
            r is Ok <==> usable(read),
            match r {
                Ok(watcher) => read == Ok::<GatewayConfig, ConfigError>(watcher.config())
                    && watcher.file() == path@,
                Err(e) => refused(read, e),
            },
    {
        match accept(read) {
            Ok(inner) => Ok(ConfigWatcher { path, inner }),
            Err(e) => Err(e),
        }
    }

    /// The file that the configuration comes from.
    pub fn path(&self) -> (r: &str)
        ensures
            r@ == self.file(),
    {
        self.path.as_str()
    }

    /// The configuration in use. Nothing is ever wrong with it.
    pub fn current(&self) -> (r: Arc<GatewayConfig>)
        ensures
            *r == self.config(),
            problem(*r) is None,
    {
        proof {
            use_type_invariant(self);
        }
        Arc::clone(&self.inner)
    }

    /// Use what was read from the file anew, and return what those who subscribed are to get:
    /// the new configuration. If it cannot be used, the configuration in use stays, and there
    /// is nothing to get.
    pub fn reload(&mut self, read: Result<GatewayConfig, ConfigError>) -> (r: Result<
        Arc<GatewayConfig>,
        ConfigError,
    >)
        ensures
            final(self).file() == old(self).file(),
            match r {
                Ok(cfg) => published(read) == Some(*cfg) && final(self).config() == *cfg,
                Err(e) => {
                    &&& published(read) is None
                    &&& refused(read, e)
                    &&& final(self).config() == old(self).config()
                },
            },
    {
        match accept(read) {
            Ok(inner) => {
                self.inner = Arc::clone(&inner);
                Ok(inner)
            },
            Err(e) => Err(e),
        }
    }
}

// ── Laws ────────────────────────────────────────────────────────────────────

/// What those who subscribed get of a configuration as it was read: nothing if it cannot be
/// used.
pub open spec fn published(read: Result<GatewayConfig, ConfigError>) -> Option<GatewayConfig> {
    if usable(read) {
        Some(read->Ok_0)
    } else {
        None
    }
}

/// The configuration that someone holds after reloads, who began with `start` and takes what
/// is published.
pub open spec fn held_after(
    start: GatewayConfig,
    reads: Seq<Result<GatewayConfig, ConfigError>>,
) -> GatewayConfig
    decreases reads.len(),
{
    if reads.len() == 0 {
        start
    } else {
        match published(reads.last()) {
            Some(cfg) => cfg,
            None => held_after(start, reads.drop_last()),
        }
    }
}

/// After any reloads, those who subscribed hold the last configuration that could be used, or
/// that from the start if none could; nothing is wrong with it.
pub proof fn law_the_last_usable_configuration_is_held(
    start: GatewayConfig,
    reads: Seq<Result<GatewayConfig, ConfigError>>,
    last: int,
)
    requires
        problem(start) is None,
        -1 <= last < reads.len(),
        last >= 0 ==> usable(reads[last]),
        forall|i: int| last < i < reads.len() ==> !usable(#[trigger] reads[i]),
    ensures
        held_after(start, reads) == if last >= 0 {
            reads[last]->Ok_0
        } else {
            start
        },
        problem(held_after(start, reads)) is None,
    decreases reads.len(),
{
    if reads.len() > 0 {
        assert(reads.last() == reads[reads.len() - 1]);
        if last < reads.len() - 1 {
            assert forall|i: int| last < i < reads.drop_last().len() implies !usable(
                #[trigger] reads.drop_last()[i],
            ) by {
                assert(reads.drop_last()[i] == reads[i]);
            }
            law_the_last_usable_configuration_is_held(start, reads.drop_last(), last);
        }
    }
}

/// A configuration is used, and published, exactly if it could be read and nothing is wrong
/// with it; what is published is what was read.
pub proof fn law_only_valid_configurations_are_used(read: Result<GatewayConfig, ConfigError>)
    ensures
        read is Err ==> !usable(read) && published(read) is None,
        read matches Ok(cfg) ==> {
            &&& problem(cfg) is Some ==> !usable(read) && published(read) is None
            &&& problem(cfg) is None ==> usable(read) && published(read) == Some(cfg)
        },
{
}

/// A file that cannot be read is refused with the error of the reading, and a configuration
/// with something wrong in it with what is wrong.
pub proof fn law_refusals_say_why(read: Result<GatewayConfig, ConfigError>, e: ConfigError)
    requires
        refused(read, e),
    ensures
        read matches Err(reading) ==> e == reading,
        read matches Ok(cfg) ==> (e matches ConfigError::Validation(m) && problem(cfg) == Some(m@)),
{
}

} // verus!
