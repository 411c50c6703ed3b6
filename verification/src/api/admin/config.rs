//! Settings that can be changed while the engine runs.

use vstd::prelude::*;
use crate::api::rate_limit::RateLimitConfig;

verus! {

/// The settings that were changed; the others are as configured. A change is
/// written in the same form: what it does not hold stays.
#[derive(Debug, Clone, Copy, PartialEq, Eq)]
pub struct RuntimeConfig {
    pub fanout_depth: Option<u32>,
    pub search_rate_limit_per_minute: Option<u32>,
    pub crawl_default_recrawl_interval_secs: Option<u64>,
    pub crawl_politeness_delay_ms: Option<u64>,
    pub max_concurrent_crawls: Option<u32>,
}

/// Nothing was changed.
pub open spec fn unchanged() -> RuntimeConfig {
    RuntimeConfig {
        fanout_depth: None,
        search_rate_limit_per_minute: None,
        crawl_default_recrawl_interval_secs: None,
        crawl_politeness_delay_ms: None,
        max_concurrent_crawls: None,
    }
}

impl Default for RuntimeConfig {
    fn default() -> (r: RuntimeConfig)
        ensures
            r == unchanged(),
    {
        RuntimeConfig {
            fanout_depth: None,
            search_rate_limit_per_minute: None,
            crawl_default_recrawl_interval_secs: None,
            crawl_politeness_delay_ms: None,
            max_concurrent_crawls: None,
        }
    }
}

/// The new value where there is one, else the old one.
pub open spec fn newer<T>(new_value: Option<T>, old_value: Option<T>) -> Option<T> {
    match new_value {
        Some(v) => Some(v),
        None => old_value,
    }
}

/// The settings after a change.
pub open spec fn patched(cfg: RuntimeConfig, change: RuntimeConfig) -> RuntimeConfig {
    RuntimeConfig {
        fanout_depth: newer(change.fanout_depth, cfg.fanout_depth),
        search_rate_limit_per_minute: newer(
            change.search_rate_limit_per_minute,
            cfg.search_rate_limit_per_minute,
        ),
        crawl_default_recrawl_interval_secs: newer(
            change.crawl_default_recrawl_interval_secs,
            cfg.crawl_default_recrawl_interval_secs,
        ),
        crawl_politeness_delay_ms: newer(
            change.crawl_politeness_delay_ms,
            cfg.crawl_politeness_delay_ms,
        ),
        max_concurrent_crawls: newer(change.max_concurrent_crawls, cfg.max_concurrent_crawls),
    }
}

/// Changes the settings. A new rate limit is in force at once.
pub fn put_config(cfg: &mut RuntimeConfig, limits: &mut RateLimitConfig, change: &RuntimeConfig)
    ensures
        *final(cfg) == patched(*old(cfg), *change),
        *final(limits) == (RateLimitConfig {
            limit: match change.search_rate_limit_per_minute {
                Some(limit) => limit,
                None => old(limits).limit,
            },
            ..*old(limits)
        }),
{
    if change.fanout_depth.is_some() {
        cfg.fanout_depth = change.fanout_depth;
    }
    if let Some(limit) = change.search_rate_limit_per_minute {
        cfg.search_rate_limit_per_minute = Some(limit);
        limits.limit = limit;
    }
    if change.crawl_default_recrawl_interval_secs.is_some() {
        cfg.crawl_default_recrawl_interval_secs = change.crawl_default_recrawl_interval_secs;
    }
    if change.crawl_politeness_delay_ms.is_some() {
        cfg.crawl_politeness_delay_ms = change.crawl_politeness_delay_ms;
    }
    if change.max_concurrent_crawls.is_some() {
        cfg.max_concurrent_crawls = change.max_concurrent_crawls;
    }
}

/// The settings at a start: what is stored, where it is there and can be read.
pub fn loaded(stored: Option<RuntimeConfig>) -> (r: RuntimeConfig)
    ensures
        r == match stored {
            Some(cfg) => cfg,
            None => unchanged(),
        },
{
    match stored {
        Some(cfg) => cfg,
        None => RuntimeConfig::default(),
    }
}

/// An empty change changes nothing, and a change that is made twice counts
/// once.
pub proof fn changes_are_idempotent(cfg: RuntimeConfig, change: RuntimeConfig)
    ensures
        patched(cfg, unchanged()) == cfg,
        patched(patched(cfg, change), change) == patched(cfg, change),
{
}

/// Two changes in turn are one: what the second does not hold is as the first
/// left it.
pub proof fn changes_combine(cfg: RuntimeConfig, a: RuntimeConfig, b: RuntimeConfig)
    ensures
        patched(patched(cfg, a), b) == patched(cfg, patched(a, b)),
{
}

/// A change sets what it names and leaves everything else.
pub proof fn changes_set_what_they_name(cfg: RuntimeConfig, change: RuntimeConfig)
    ensures
        ({
            let r = patched(cfg, change);
            &&& r.fanout_depth == if change.fanout_depth is Some {
                change.fanout_depth
            } else {
                cfg.fanout_depth
            }
            &&& r.search_rate_limit_per_minute == if change.search_rate_limit_per_minute is Some {
                change.search_rate_limit_per_minute
            } else {
                cfg.search_rate_limit_per_minute
            }
            &&& r.crawl_default_recrawl_interval_secs
                == if change.crawl_default_recrawl_interval_secs is Some {
                change.crawl_default_recrawl_interval_secs
            } else {
                cfg.crawl_default_recrawl_interval_secs
            }
            &&& r.crawl_politeness_delay_ms == if change.crawl_politeness_delay_ms is Some {
                change.crawl_politeness_delay_ms
            } else {
                cfg.crawl_politeness_delay_ms
            }
            &&& r.max_concurrent_crawls == if change.max_concurrent_crawls is Some {
                change.max_concurrent_crawls
            } else {
                cfg.max_concurrent_crawls
            }
        }),
{
}

} // verus!
