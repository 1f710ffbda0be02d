//! Limits that hold for the whole relay. The program keeps one `GlobalConfig` and hands it to
//! these functions.

use vstd::prelude::*;

verus! {

/// The limits that were set.
#[derive(Debug, Clone, Copy, PartialEq, Eq, Structural)]
pub struct GlobalConfig {
    pub max_subscriptions: Option<usize>,
    pub max_limit: Option<usize>,
}

impl GlobalConfig {
    /// No limit is set.
    pub fn new() -> (r: GlobalConfig)
        ensures
            r.max_subscriptions is None,
            r.max_limit is None,
    {
        GlobalConfig { max_subscriptions: None, max_limit: None }
    }
}

impl Default for GlobalConfig {
    fn default() -> (r: GlobalConfig)
        ensures
            r.max_subscriptions is None,
            r.max_limit is None,
    {
        GlobalConfig::new()
    }
}

/// Sets the limit of subscriptions.
pub fn set_max_subscriptions(config: &mut GlobalConfig, limit: usize)
    ensures
        final(config).max_subscriptions == Some(limit),
        final(config).max_limit == old(config).max_limit,
{
    config.max_subscriptions = Some(limit);
}

/// The limit of subscriptions.
pub fn get_max_subscriptions(config: &GlobalConfig) -> (r: Option<usize>)
    ensures
        r == config.max_subscriptions,
{
    config.max_subscriptions
}

/// The limit of subscriptions, or a default.
pub fn get_max_subscriptions_or_default(config: &GlobalConfig, default: usize) -> (r: usize)
    ensures
        r == match config.max_subscriptions {
            Some(limit) => limit,
            None => default,
        },
{
    get_max_subscriptions(config).unwrap_or(default)
}

/// Sets the limit of events per filter.
pub fn set_max_limit(config: &mut GlobalConfig, limit: usize)
    ensures
        final(config).max_limit == Some(limit),
        final(config).max_subscriptions == old(config).max_subscriptions,
{
    config.max_limit = Some(limit);
}

/// The limit of events per filter.
pub fn get_max_limit(config: &GlobalConfig) -> (r: Option<usize>)
    ensures
        r == config.max_limit,
{
    config.max_limit
}

/// The limit of events per filter, or a default.
pub fn get_max_limit_or_default(config: &GlobalConfig, default: usize) -> (r: usize)
    ensures
        r == match config.max_limit {
            Some(limit) => limit,
            None => default,
        },
{
    get_max_limit(config).unwrap_or(default)
}

/// A limit that was set is the one that holds, whatever the default; the other limit stays. Where
/// none was set, the default holds.
pub proof fn law_limits_that_were_set_hold(
    before: GlobalConfig,
    after: GlobalConfig,
    limit: usize,
    default: usize,
    set: (),
    r: usize,
    other: usize,
)
    requires
        exists|config: &mut GlobalConfig|
            {
                &&& #[trigger] call_ensures(set_max_limit, (config, limit), set)
                &&& *config == before
                &&& *final(config) == after
            },
        call_ensures(get_max_limit_or_default, (&after, default), r),
        call_ensures(get_max_subscriptions_or_default, (&after, default), other),
    ensures
        r == limit,
        before.max_subscriptions is None ==> other == default,
        before.max_subscriptions matches Some(n) ==> other == n,
{
}

/// A limit of subscriptions that was set is the one that holds, whatever the default; the other limit
/// stays. Where none was set, the default holds.
pub proof fn law_subscription_limits_that_were_set_hold(
    before: GlobalConfig,
    after: GlobalConfig,
    limit: usize,
    default: usize,
    set: (),
    r: usize,
    other: usize,
)
    requires
        exists|config: &mut GlobalConfig|
            {
                &&& #[trigger] call_ensures(set_max_subscriptions, (config, limit), set)
                &&& *config == before
                &&& *final(config) == after
            },
        call_ensures(get_max_subscriptions_or_default, (&after, default), r),
        call_ensures(get_max_limit_or_default, (&after, default), other),
    ensures
        r == limit,
        before.max_limit is None ==> other == default,
        before.max_limit matches Some(n) ==> other == n,
{
}

} // verus!
