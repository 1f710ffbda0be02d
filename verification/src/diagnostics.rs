//! Health checks: how the figures of the relay changed since the last check, and what looks like
//! a leak.

use crate::protocol::Scope;
use crate::subscription_registry::{RegistryDiagnostics, ScopeDiagnostics};
use crate::text::{decimal, usize_text};
use vstd::prelude::*;

verus! {

/// The figures of a scope at the last check.
#[derive(Debug, Clone, Copy, PartialEq, Eq, Structural)]
pub struct ScopeMetrics {
    pub filter_count: usize,
    pub connection_count: usize,
    pub tracked_events: usize,
}

/// The figures of the indexes at the last check.
#[derive(Debug, Clone, Copy, PartialEq, Eq, Structural)]
pub struct IndexMetrics {
    pub authors: usize,
    pub kinds: usize,
    pub tags: usize,
}

/// The figures at the last check.
pub struct PreviousMeasurements {
    pub total_connections: usize,
    pub total_subscriptions: usize,
    /// The figures of each scope.
    pub scope_metrics: Vec<(Scope, ScopeMetrics)>,
    pub index_metrics: IndexMetrics,
}

/// The figures of a scope in a list, where it is there.
pub open spec fn metrics_of(
    list: Seq<(Scope, ScopeMetrics)>,
    scope: Option<Seq<char>>,
) -> Option<ScopeMetrics>
    decreases list.len(),
{
    if list.len() == 0 {
        None
    } else if list.last().0@ == scope {
        Some(list.last().1)
    } else {
        metrics_of(list.drop_last(), scope)
    }
}

/// The figures of a scope as they are noted for the next check.
pub open spec fn noted(d: ScopeDiagnostics) -> ScopeMetrics {
    ScopeMetrics {
        filter_count: d.filter_count,
        connection_count: d.connection_count,
        tracked_events: d.tracked_events,
    }
}

/// The figures of a scope once those of a check are noted: the last of the check's entries for
/// the scope, or what was noted before.
pub open spec fn updated_metrics(
    before: Seq<(Scope, ScopeMetrics)>,
    diagnostics: Seq<ScopeDiagnostics>,
    scope: Option<Seq<char>>,
) -> Option<ScopeMetrics>
    decreases diagnostics.len(),
{
    if diagnostics.len() == 0 {
        metrics_of(before, scope)
    } else if diagnostics.last().scope@ == scope {
        Some(noted(diagnostics.last()))
    } else {
        updated_metrics(before, diagnostics.drop_last(), scope)
    }
}

/// The number of tracked events of a scope that was noted; none where the scope is new.
pub open spec fn events_before(metrics: Option<ScopeMetrics>) -> int {
    match metrics {
        Some(m) => m.tracked_events as int,
        None => 0,
    }
}

/// Sums over the scopes.
#[verifier::ext_equal]
pub struct Totals {
    pub subscriptions: nat,
    pub authors: nat,
    pub kinds: nat,
    pub tags: nat,
}

/// The sums over the scopes.
pub open spec fn totals(diagnostics: Seq<ScopeDiagnostics>) -> Totals
    decreases diagnostics.len(),
{
    if diagnostics.len() == 0 {
        Totals { subscriptions: 0, authors: 0, kinds: 0, tags: 0 }
    } else {
        let before = totals(diagnostics.drop_last());
        let last = diagnostics.last();
        Totals {
            subscriptions: before.subscriptions + last.subscription_count as nat,
            authors: before.authors + last.authors_indexed as nat,
            kinds: before.kinds + last.kinds_indexed as nat,
            tags: before.tags + last.tags_indexed as nat,
        }
    }
}

/// The largest figure that changes are computed for: a number of 64 bits with a sign.
pub const MAX_FIGURE: u64 = 9_223_372_036_854_775_807;

/// The largest number of connections that changes are computed for: a hundred times as much is
/// still a number of 64 bits with a sign.
pub const MAX_CONNECTIONS: u64 = 92_233_720_368_547_758;

/// The figures of a check, or those that were noted, are in the range for which changes are
/// computed.
pub open spec fn in_range(d: RegistryDiagnostics) -> bool {
    let t = totals(d.scope_diagnostics@);
    &&& d.total_connections <= MAX_CONNECTIONS
    &&& t.subscriptions <= MAX_FIGURE && t.subscriptions <= usize::MAX
    &&& t.authors <= MAX_FIGURE && t.authors <= usize::MAX
    &&& t.kinds <= MAX_FIGURE && t.kinds <= usize::MAX
    &&& t.tags <= MAX_FIGURE && t.tags <= usize::MAX
    &&& forall|i: int|
        0 <= i < d.scope_diagnostics@.len() ==> (#[trigger] d.scope_diagnostics@[i]).tracked_events
            <= MAX_FIGURE
}

impl PreviousMeasurements {
    /// The noted figures are in the range for which changes are computed.
    pub open spec fn in_range(self) -> bool {
        &&& self.total_connections <= MAX_CONNECTIONS
        &&& self.total_subscriptions <= MAX_FIGURE
        &&& self.index_metrics.authors <= MAX_FIGURE
        &&& self.index_metrics.kinds <= MAX_FIGURE
        &&& self.index_metrics.tags <= MAX_FIGURE
        &&& forall|i: int|
            0 <= i < self.scope_metrics@.len() ==> (
            #[trigger] self.scope_metrics@[i]).1.tracked_events <= MAX_FIGURE
    }

    /// Nothing was noted yet.
    pub fn new() -> (r: PreviousMeasurements)
        ensures
            r.in_range(),
            r.total_connections == 0,
            r.total_subscriptions == 0,
            r.scope_metrics@.len() == 0,
            r.index_metrics == (IndexMetrics { authors: 0, kinds: 0, tags: 0 }),
    {
        PreviousMeasurements {
            total_connections: 0,
            total_subscriptions: 0,
            scope_metrics: Vec::new(),
            index_metrics: IndexMetrics { authors: 0, kinds: 0, tags: 0 },
        }
    }
}

/// Something that looks like a leak.
pub enum Anomaly {
    /// The tracked events of a scope grow much faster than the connections.
    GrowingEvents { events_delta: i64, conn_delta: i64 },
    /// A scope without connections has filters.
    RetainedFilters { scope: Scope, filter_count: usize },
}

#[verifier::ext_equal]
pub enum AnomalyView {
    GrowingEvents { events_delta: int, conn_delta: int },
    RetainedFilters { scope: Option<Seq<char>>, filter_count: usize },
}

impl View for Anomaly {
    type V = AnomalyView;

    open spec fn view(&self) -> AnomalyView {
        match self {
            Anomaly::GrowingEvents { events_delta, conn_delta } => AnomalyView::GrowingEvents {
                events_delta: *events_delta as int,
                conn_delta: *conn_delta as int,
            },
            Anomaly::RetainedFilters { scope, filter_count } => AnomalyView::RetainedFilters {
                scope: scope@,
                filter_count: *filter_count,
            },
        }
    }
}

/// The views of a list of anomalies.
pub open spec fn anomalies_view(list: Seq<Anomaly>) -> Seq<AnomalyView> {
    list.map_values(|a: Anomaly| a@)
}

/// The scopes whose tracked events grow much faster than the connections.
pub open spec fn growing(
    diagnostics: Seq<ScopeDiagnostics>,
    conn_delta: int,
    previous: Seq<(Scope, ScopeMetrics)>,
) -> Seq<AnomalyView>
    decreases diagnostics.len(),
{
    if diagnostics.len() == 0 || conn_delta <= 0 {
        Seq::empty()
    } else {
        let before = growing(diagnostics.drop_last(), conn_delta, previous);
        let last = diagnostics.last();
        match metrics_of(previous, last.scope@) {
            Some(m) => {
                let events_delta = last.tracked_events - m.tracked_events;
                if events_delta > 0 && events_delta > conn_delta * 100 {
                    before.push(AnomalyView::GrowingEvents { events_delta, conn_delta })
                } else {
                    before
                }
            },
            None => before,
        }
    }
}

/// The scopes without connections that have filters, by the latest figures of each scope.
pub open spec fn retained(
    empty_scopes: Seq<Scope>,
    diagnostics: Seq<ScopeDiagnostics>,
    previous: Seq<(Scope, ScopeMetrics)>,
) -> Seq<AnomalyView>
    decreases empty_scopes.len(),
{
    if empty_scopes.len() == 0 {
        Seq::empty()
    } else {
        let before = retained(empty_scopes.drop_last(), diagnostics, previous);
        match updated_metrics(previous, diagnostics, empty_scopes.last()@) {
            Some(m) => if m.filter_count > 0 {
                before.push(
                    AnomalyView::RetainedFilters {
                        scope: empty_scopes.last()@,
                        filter_count: m.filter_count,
                    },
                )
            } else {
                before
            },
            None => before,
        }
    }
}

/// The name under which a scope is reported.
pub open spec fn shown_name(scope: Option<Seq<char>>) -> Seq<char> {
    match scope {
        Some(name) => name,
        None => "Default"@,
    }
}

/// The name under which a scope is reported.
pub fn scope_name(scope: &Scope) -> (r: String)
    ensures
        r@ == shown_name(scope@),
{
    match scope {
        Scope::Default => "Default".to_owned(),
        Scope::Named { name } => name.clone(),
    }
}

/// The warning about a scope without connections that has filters.
pub fn retained_filters_text(scope: &Scope, filter_count: usize) -> (r: String)
    ensures
        r@ == "Scope '"@ + shown_name(scope@) + "' has 0 connections but "@ + decimal(
            filter_count as nat,
        ) + " filters"@,
{
    let mut text = String::from_str("Scope '");
    text.append(scope_name(scope).as_str());
    text.append("' has 0 connections but ");
    text.append(usize_text(filter_count).as_str());
    text.append(" filters");
    text
}

fn find_metrics(list: &Vec<(Scope, ScopeMetrics)>, scope: &Scope) -> (r: Option<ScopeMetrics>)
    ensures
        r == metrics_of(list@, scope@),
        r matches Some(m) ==> exists|i: int| 0 <= i < list@.len() && (#[trigger] list@[i]).1 == m,
{
    let mut n: usize = list.len();
    proof {
        assert(list@.take(n as int) =~= list@);
    }
    while n > 0
        invariant
            n <= list@.len(),
            metrics_of(list@, scope@) == metrics_of(list@.take(n as int), scope@),
        decreases n,
    {
        proof {
            assert(list@.take(n as int).drop_last() =~= list@.take(n - 1));
        }
        if list[n - 1].0.same(scope) {
            proof {
                assert(list@[n - 1].1 == list@[n - 1].1);
            }
            return Some(list[n - 1].1);
        }
        n = n - 1;
    }
    None
}

/// Changing the last entry for a scope changes the figures of that scope only.
proof fn lemma_metrics_update(
    list: Seq<(Scope, ScopeMetrics)>,
    i: int,
    entry: (Scope, ScopeMetrics),
    scope: Option<Seq<char>>,
)
    requires
        0 <= i < list.len(),
        list[i].0@ == entry.0@,
        forall|k: int| i < k < list.len() ==> (#[trigger] list[k]).0@ != entry.0@,
    ensures
        metrics_of(list.update(i, entry), scope) == if scope == entry.0@ {
            Some(entry.1)
        } else {
            metrics_of(list, scope)
        },
    decreases list.len(),
{
    let after = list.update(i, entry);
    if i == list.len() - 1 {
        assert(after.drop_last() =~= list.drop_last());
    } else {
        assert(list[list.len() - 1].0@ != entry.0@);
        assert(after.drop_last() =~= list.drop_last().update(i, entry));
        let init = list.drop_last();
        assert forall|k: int| i < k < init.len() implies (#[trigger] init[k]).0@ != entry.0@ by {
            assert(list[k].0@ != entry.0@);
        }
        lemma_metrics_update(init, i, entry, scope);
    }
}

/// Notes the figures of a scope in the place of earlier ones.
fn note_metrics(list: &mut Vec<(Scope, ScopeMetrics)>, scope: &Scope, metrics: ScopeMetrics)
    ensures
        forall|s: Option<Seq<char>>| #[trigger]
            metrics_of(final(list)@, s) == if s == scope@ {
                Some(metrics)
            } else {
                metrics_of(old(list)@, s)
            },
        forall|i: int|
            0 <= i < final(list)@.len() ==> (#[trigger] final(list)@[i]).1 == metrics || (i < old(
                list,
            )@.len() && final(list)@[i].1 == old(list)@[i].1),
{
    let ghost before = list@;
    let mut n: usize = list.len();
    while n > 0
        invariant
            n <= list@.len(),
            list@ == before,
            before == old(list)@,
            forall|k: int| n <= k < before.len() ==> (#[trigger] before[k]).0@ != scope@,
        decreases n,
    {
        if list[n - 1].0.same(scope) {
            let entry = (scope.copy(), metrics);
            list.set(n - 1, entry);
            proof {
                assert(list@ =~= before.update(n - 1, entry));
                assert forall|s: Option<Seq<char>>| #[trigger]
                    metrics_of(list@, s) == if s == scope@ {
                        Some(metrics)
                    } else {
                        metrics_of(before, s)
                    } by {
                    lemma_metrics_update(before, n - 1, entry, s);
                }
            }
            return;
        }
        n = n - 1;
    }
    list.push((scope.copy(), metrics));
    proof {
        assert(list@.drop_last() =~= before);
    }
}

/// The latest figures of a scope: those of a check, or else those that were noted.
fn latest_metrics(
    diagnostics: &RegistryDiagnostics,
    list: &Vec<(Scope, ScopeMetrics)>,
    scope: &Scope,
) -> (r: Option<ScopeMetrics>)
    ensures
        r == updated_metrics(list@, diagnostics.scope_diagnostics@, scope@),
{
    let ghost d = diagnostics.scope_diagnostics@;
    let mut n: usize = diagnostics.scope_diagnostics.len();
    proof {
        assert(d.take(n as int) =~= d);
    }
    while n > 0
        invariant
            n <= d.len(),
            d == diagnostics.scope_diagnostics@,
            updated_metrics(list@, d, scope@) == updated_metrics(list@, d.take(n as int), scope@),
        decreases n,
    {
        proof {
            assert(d.take(n as int).drop_last() =~= d.take(n - 1));
        }
        let entry = &diagnostics.scope_diagnostics[n - 1];
        if entry.scope.same(scope) {
            return Some(
                ScopeMetrics {
                    filter_count: entry.filter_count,
                    connection_count: entry.connection_count,
                    tracked_events: entry.tracked_events,
                },
            );
        }
        n = n - 1;
    }
    find_metrics(list, scope)
}

/// What looks like a leak, given the figures of a check, the change of the number of connections
/// and the figures that were noted before the check.
pub fn detect_anomalies(
    diagnostics: &RegistryDiagnostics,
    conn_delta: i64,
    previous: &PreviousMeasurements,
) -> (r: Vec<Anomaly>)
    requires
        in_range(*diagnostics),
        previous.in_range(),
        conn_delta <= MAX_CONNECTIONS,
    ensures
        anomalies_view(r@) == growing(
            diagnostics.scope_diagnostics@,
            conn_delta as int,
            previous.scope_metrics@,
        ) + retained(
            diagnostics.empty_scopes@,
            diagnostics.scope_diagnostics@,
            previous.scope_metrics@,
        ),
{
    let mut warnings: Vec<Anomaly> = Vec::new();
    let ghost diags = diagnostics.scope_diagnostics@;
    let ghost noted = previous.scope_metrics@;
    if conn_delta > 0 {
        let mut i: usize = 0;
        proof {
            assert(diags.take(0) =~= Seq::empty());
            assert(anomalies_view(warnings@) =~= Seq::empty());
        }
        while i < diagnostics.scope_diagnostics.len()
            invariant
                i <= diagnostics.scope_diagnostics@.len(),
                diags == diagnostics.scope_diagnostics@,
                noted == previous.scope_metrics@,
                in_range(*diagnostics),
                previous.in_range(),
                0 < conn_delta <= MAX_CONNECTIONS,
                anomalies_view(warnings@) == growing(
                    diags.take(i as int),
                    conn_delta as int,
                    noted,
                ),
            decreases diagnostics.scope_diagnostics@.len() - i,
        {
            proof {
                assert(diags.take(i + 1).drop_last() =~= diags.take(i as int));
                assert(diags.take(i + 1).last() == diags[i as int]);
            }
            let d = &diagnostics.scope_diagnostics[i];
            if let Some(m) = find_metrics(&previous.scope_metrics, &d.scope) {
                let events_delta: i64 = d.tracked_events as i64 - m.tracked_events as i64;
                if events_delta > 0 && events_delta > conn_delta * 100 {
                    let ghost before = anomalies_view(warnings@);
                    warnings.push(Anomaly::GrowingEvents { events_delta, conn_delta });
                    proof {
                        assert(anomalies_view(warnings@) =~= before.push(
                            AnomalyView::GrowingEvents {
                                events_delta: events_delta as int,
                                conn_delta: conn_delta as int,
                            },
                        ));
                    }
                }
            }
            i = i + 1;
        }
        proof {
            assert(diags.take(diags.len() as int) =~= diags);
        }
    } else {
        proof {
            assert(anomalies_view(warnings@) =~= Seq::empty());
        }
    }
    let ghost first = anomalies_view(warnings@);
    let ghost empty = diagnostics.empty_scopes@;
    let mut i: usize = 0;
    proof {
        assert(empty.take(0) =~= Seq::empty());
        assert(first + retained(empty.take(0), diags, noted) =~= first);
    }
    while i < diagnostics.empty_scopes.len()
        invariant
            i <= diagnostics.empty_scopes@.len(),
            empty == diagnostics.empty_scopes@,
            diags == diagnostics.scope_diagnostics@,
            noted == previous.scope_metrics@,
            anomalies_view(warnings@) == first + retained(empty.take(i as int), diags, noted),
        decreases diagnostics.empty_scopes@.len() - i,
    {
        proof {
            assert(empty.take(i + 1).drop_last() =~= empty.take(i as int));
            assert(empty.take(i + 1).last() == empty[i as int]);
        }
        let scope = &diagnostics.empty_scopes[i];
        if let Some(m) = latest_metrics(diagnostics, &previous.scope_metrics, scope) {
            if m.filter_count > 0 {
                let ghost before = anomalies_view(warnings@);
                let ghost done = retained(empty.take(i as int), diags, noted);
                warnings.push(
                    Anomaly::RetainedFilters { scope: scope.copy(), filter_count: m.filter_count },
                );
                proof {
                    let added = AnomalyView::RetainedFilters {
                        scope: scope@,
                        filter_count: m.filter_count,
                    };
                    assert(anomalies_view(warnings@) =~= before.push(added));
                    assert(first + done.push(added) =~= (first + done).push(added));
                }
            }
        }
        i = i + 1;
    }
    proof {
        assert(empty.take(empty.len() as int) =~= empty);
    }
    warnings
}

/// What a health check reports.
pub struct HealthReport {
    /// The change of the number of connections.
    pub conn_delta: i64,
    pub total_subscriptions: usize,
    /// The change of the number of subscriptions.
    pub sub_delta: i64,
    /// The change of the number of tracked events of each scope.
    pub events_deltas: Vec<i64>,
    pub total_authors: usize,
    pub authors_delta: i64,
    pub total_kinds: usize,
    pub kinds_delta: i64,
    pub total_tags: usize,
    pub tags_delta: i64,
    /// What looks like a leak.
    pub warnings: Vec<Anomaly>,
}

/// The sums over the first scopes are at most the sums over all.
proof fn lemma_totals_grow(d: Seq<ScopeDiagnostics>, n: int)
    requires
        0 <= n <= d.len(),
    ensures
        totals(d.take(n)).subscriptions <= totals(d).subscriptions,
        totals(d.take(n)).authors <= totals(d).authors,
        totals(d.take(n)).kinds <= totals(d).kinds,
        totals(d.take(n)).tags <= totals(d).tags,
    decreases d.len() - n,
{
    if n == d.len() {
        assert(d.take(n) =~= d);
    } else {
        lemma_totals_grow(d, n + 1);
        assert(d.take(n + 1).drop_last() =~= d.take(n));
    }
}

/// Compares the figures of a check with those that were noted before, and notes them.
pub fn log_health_check(diagnostics: &RegistryDiagnostics, previous: &mut PreviousMeasurements) -> (r:
    HealthReport)
    requires
        in_range(*diagnostics),
        old(previous).in_range(),
    ensures
        ({
            let t = totals(diagnostics.scope_diagnostics@);
            let d = diagnostics.scope_diagnostics@;
            &&& r.conn_delta == diagnostics.total_connections - old(previous).total_connections
            &&& r.total_subscriptions == t.subscriptions
            &&& r.sub_delta == t.subscriptions - old(previous).total_subscriptions
            &&& r.total_authors == t.authors
            &&& r.authors_delta == t.authors - old(previous).index_metrics.authors
            &&& r.total_kinds == t.kinds
            &&& r.kinds_delta == t.kinds - old(previous).index_metrics.kinds
            &&& r.total_tags == t.tags
            &&& r.tags_delta == t.tags - old(previous).index_metrics.tags
            &&& r.events_deltas@.len() == d.len()
            &&& forall|i: int|
                0 <= i < d.len() ==> #[trigger] r.events_deltas@[i] == d[i].tracked_events
                    - events_before(
                    updated_metrics(old(previous).scope_metrics@, d.take(i), d[i].scope@),
                )
            &&& anomalies_view(r.warnings@) == growing(
                d,
                r.conn_delta as int,
                old(previous).scope_metrics@,
            ) + retained(diagnostics.empty_scopes@, d, old(previous).scope_metrics@)
            &&& final(previous).total_connections == diagnostics.total_connections
            &&& final(previous).total_subscriptions == t.subscriptions
            &&& final(previous).index_metrics.authors == t.authors
            &&& final(previous).index_metrics.kinds == t.kinds
            &&& final(previous).index_metrics.tags == t.tags
            &&& forall|scope: Option<Seq<char>>| #[trigger]
                metrics_of(final(previous).scope_metrics@, scope) == updated_metrics(
                    old(previous).scope_metrics@,
                    d,
                    scope,
                )
        }),
        final(previous).in_range(),
{
    let ghost d = diagnostics.scope_diagnostics@;
    let ghost start = previous.scope_metrics@;
    let ghost before = *previous;
    let mut total_subscriptions: usize = 0;
    let mut total_authors: usize = 0;
    let mut total_kinds: usize = 0;
    let mut total_tags: usize = 0;
    let mut events_deltas: Vec<i64> = Vec::new();
    let conn_delta: i64 = diagnostics.total_connections as i64 - previous.total_connections as i64;
    let warnings = detect_anomalies(diagnostics, conn_delta, previous);
    let mut i: usize = 0;
    proof {
        assert(d.take(0) =~= Seq::empty());
    }
    while i < diagnostics.scope_diagnostics.len()
        invariant
            i <= diagnostics.scope_diagnostics@.len(),
            d == diagnostics.scope_diagnostics@,
            in_range(*diagnostics),
            before == *old(previous),
            start == before.scope_metrics@,
            previous.in_range(),
            previous.total_connections == before.total_connections,
            previous.total_subscriptions == before.total_subscriptions,
            previous.index_metrics == before.index_metrics,
            total_subscriptions == totals(d.take(i as int)).subscriptions,
            total_authors == totals(d.take(i as int)).authors,
            total_kinds == totals(d.take(i as int)).kinds,
            total_tags == totals(d.take(i as int)).tags,
            forall|scope: Option<Seq<char>>| #[trigger]
                metrics_of(previous.scope_metrics@, scope) == updated_metrics(
                    start,
                    d.take(i as int),
                    scope,
                ),
            events_deltas@.len() == i,
            forall|k: int|
                0 <= k < i ==> #[trigger] events_deltas@[k] == d[k].tracked_events - events_before(
                    updated_metrics(start, d.take(k), d[k].scope@),
                ),
        decreases diagnostics.scope_diagnostics@.len() - i,
    {
        let entry = &diagnostics.scope_diagnostics[i];
        proof {
            assert(d.take(i + 1).drop_last() =~= d.take(i as int));
            assert(d.take(i + 1).last() == d[i as int]);
            lemma_totals_grow(d, i + 1);
        }
        total_subscriptions = total_subscriptions + entry.subscription_count;
        total_authors = total_authors + entry.authors_indexed;
        total_kinds = total_kinds + entry.kinds_indexed;
        total_tags = total_tags + entry.tags_indexed;
        let known = find_metrics(&previous.scope_metrics, &entry.scope);
        let seen: usize = match known {
            Some(m) => m.tracked_events,
            None => 0,
        };
        events_deltas.push(entry.tracked_events as i64 - seen as i64);
        let metrics = ScopeMetrics {
            filter_count: entry.filter_count,
            connection_count: entry.connection_count,
            tracked_events: entry.tracked_events,
        };
        let ghost list = previous.scope_metrics@;
        note_metrics(&mut previous.scope_metrics, &entry.scope, metrics);
        proof {
            assert forall|scope: Option<Seq<char>>| #[trigger]
                metrics_of(previous.scope_metrics@, scope) == updated_metrics(
                    start,
                    d.take(i + 1),
                    scope,
                ) by {
                assert(metrics_of(list, scope) == updated_metrics(start, d.take(i as int), scope));
            }
        }
        i = i + 1;
    }
    proof {
        assert(d.take(d.len() as int) =~= d);
    }
    let sub_delta: i64 = total_subscriptions as i64 - previous.total_subscriptions as i64;
    let authors_delta: i64 = total_authors as i64 - previous.index_metrics.authors as i64;
    let kinds_delta: i64 = total_kinds as i64 - previous.index_metrics.kinds as i64;
    let tags_delta: i64 = total_tags as i64 - previous.index_metrics.tags as i64;
    previous.total_connections = diagnostics.total_connections;
    previous.total_subscriptions = total_subscriptions;
    previous.index_metrics = IndexMetrics {
        authors: total_authors,
        kinds: total_kinds,
        tags: total_tags,
    };
    HealthReport {
        conn_delta,
        total_subscriptions,
        sub_delta,
        events_deltas,
        total_authors,
        authors_delta,
        total_kinds,
        kinds_delta,
        total_tags,
        tags_delta,
        warnings,
    }
}

/// The sums over the scopes add up: those of two lists of scopes are the sums over both.
pub proof fn law_totals_add_up(a: Seq<ScopeDiagnostics>, b: Seq<ScopeDiagnostics>)
    ensures
        totals(a + b).subscriptions == totals(a).subscriptions + totals(b).subscriptions,
        totals(a + b).authors == totals(a).authors + totals(b).authors,
        totals(a + b).kinds == totals(a).kinds + totals(b).kinds,
        totals(a + b).tags == totals(a).tags + totals(b).tags,
    decreases b.len(),
{
    if b.len() == 0 {
        assert(a + b =~= a);
    } else {
        law_totals_add_up(a, b.drop_last());
        assert((a + b).drop_last() =~= a + b.drop_last());
        assert((a + b).last() == b.last());
    }
}

/// The sums over one scope are its figures, and over none are zero.
pub proof fn law_totals_of_one_scope(d: ScopeDiagnostics)
    ensures
        totals(seq![d]) == (Totals {
            subscriptions: d.subscription_count as nat,
            authors: d.authors_indexed as nat,
            kinds: d.kinds_indexed as nat,
            tags: d.tags_indexed as nat,
        }),
        totals(Seq::empty()) == (Totals { subscriptions: 0, authors: 0, kinds: 0, tags: 0 }),
{
    assert(seq![d].drop_last() =~= Seq::empty());
    assert(seq![d].last() == d);
    assert(totals(Seq::empty()) == (Totals { subscriptions: 0, authors: 0, kinds: 0, tags: 0 }));
}

/// The warnings about growth are given scope by scope, in the order of the check.
pub proof fn law_growth_is_judged_scope_by_scope(
    a: Seq<ScopeDiagnostics>,
    b: Seq<ScopeDiagnostics>,
    conn_delta: int,
    previous: Seq<(Scope, ScopeMetrics)>,
)
    ensures
        growing(a + b, conn_delta, previous) == growing(a, conn_delta, previous) + growing(
            b,
            conn_delta,
            previous,
        ),
    decreases b.len(),
{
    if b.len() == 0 {
        assert(a + b =~= a);
        assert(growing(a, conn_delta, previous) + growing(b, conn_delta, previous) =~= growing(
            a,
            conn_delta,
            previous,
        ));
    } else {
        law_growth_is_judged_scope_by_scope(a, b.drop_last(), conn_delta, previous);
        assert((a + b).drop_last() =~= a + b.drop_last());
        assert((a + b).last() == b.last());
        assert(growing(a + b, conn_delta, previous) =~= growing(a, conn_delta, previous) + growing(
            b,
            conn_delta,
            previous,
        ));
    }
}

/// A scope is warned about where there are more connections than before, it was known before, and it
/// has gained more than a hundred events for each new connection.
pub proof fn law_growth_of_one_scope(
    d: ScopeDiagnostics,
    conn_delta: int,
    previous: Seq<(Scope, ScopeMetrics)>,
)
    ensures
        growing(seq![d], conn_delta, previous).len() == 1 <==> conn_delta > 0 && (metrics_of(
            previous,
            d.scope@,
        ) matches Some(m) && d.tracked_events - m.tracked_events > 100 * conn_delta),
        growing(seq![d], conn_delta, previous).len() <= 1,
        growing(seq![d], conn_delta, previous).len() == 1 ==> growing(
            seq![d],
            conn_delta,
            previous,
        )[0] == (AnomalyView::GrowingEvents {
            events_delta: d.tracked_events - metrics_of(previous, d.scope@)->0.tracked_events,
            conn_delta,
        }),
{
    assert(seq![d].drop_last() =~= Seq::empty());
    assert(seq![d].last() == d);
    assert(growing(Seq::empty(), conn_delta, previous) =~= Seq::empty());
}

/// A scope without connections is warned about exactly where it has filters, by its latest figures,
/// and the warnings come in the order of the check.
pub proof fn law_retained_filters_are_told(
    a: Seq<Scope>,
    scope: Scope,
    diagnostics: Seq<ScopeDiagnostics>,
    previous: Seq<(Scope, ScopeMetrics)>,
)
    ensures
        retained(a.push(scope), diagnostics, previous) == match updated_metrics(
            previous,
            diagnostics,
            scope@,
        ) {
            Some(m) if m.filter_count > 0 => retained(a, diagnostics, previous).push(
                AnomalyView::RetainedFilters { scope: scope@, filter_count: m.filter_count },
            ),
            _ => retained(a, diagnostics, previous),
        },
        retained(Seq::empty(), diagnostics, previous).len() == 0,
{
    assert(a.push(scope).drop_last() =~= a);
}

/// The latest figures of a scope are those of the last entry for it in the check, and what was noted
/// before where the check has none.
pub proof fn law_latest_figures(
    before: Seq<(Scope, ScopeMetrics)>,
    diagnostics: Seq<ScopeDiagnostics>,
    scope: Option<Seq<char>>,
    i: int,
)
    ensures
        0 <= i < diagnostics.len() && diagnostics[i].scope@ == scope && (forall|j: int|
            i < j < diagnostics.len() ==> (#[trigger] diagnostics[j]).scope@ != scope) ==> (
        updated_metrics(before, diagnostics, scope) matches Some(m) && m.filter_count
            == diagnostics[i].filter_count && m.connection_count == diagnostics[i].connection_count
            && m.tracked_events == diagnostics[i].tracked_events),
        (forall|j: int|
            0 <= j < diagnostics.len() ==> (#[trigger] diagnostics[j]).scope@ != scope)
            ==> updated_metrics(before, diagnostics, scope) == metrics_of(before, scope),
    decreases diagnostics.len(),
{
    if diagnostics.len() > 0 {
        let init = diagnostics.drop_last();
        law_latest_figures(before, init, scope, i);
        assert(diagnostics.last() == diagnostics[diagnostics.len() - 1]);
        if forall|j: int| 0 <= j < diagnostics.len() ==> (#[trigger] diagnostics[j]).scope@ != scope {
            assert forall|j: int| 0 <= j < init.len() implies (#[trigger] init[j]).scope@ != scope by {
                assert(diagnostics[j].scope@ != scope);
            }
        }
        if 0 <= i < init.len() && (forall|j: int|
            i < j < diagnostics.len() ==> (#[trigger] diagnostics[j]).scope@ != scope) {
            assert forall|j: int| i < j < init.len() implies (#[trigger] init[j]).scope@ != scope by {
                assert(diagnostics[j].scope@ != scope);
            }
            assert(diagnostics[diagnostics.len() - 1].scope@ != scope);
        }
    }
}

} // verus!
