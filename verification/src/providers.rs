//! The provider-neutral responses that the widget renders: rate-limit windows and usage
//! statistics, the same shape for every provider.
use vstd::prelude::*;
use crate::json::{copy_number, texts_view, JsonNumber, NumberView};

verus! {

/// The agents whose usage the widget shows.
#[derive(Clone, Copy, Debug, Hash, PartialEq, Eq, Structural)]
pub enum ProviderId {
    Claude,
    Codex,
}

/// One rate-limit window.
#[derive(Clone, Debug)]
pub struct ProviderLimit {
    /// Stable identifier, unique within a response.
    pub id: String,
    /// Display label.
    pub title: String,
    /// Percent of the window used, as the provider reported the number.
    pub utilization: Option<JsonNumber>,
    /// When the window resets, as an RFC 3339 timestamp.
    pub resets_at: Option<String>,
    /// Length of the window in minutes.
    pub window_minutes: Option<i64>,
}

/// Why a card is serving cached data rather than live data, classified at the branch that
/// failed.
#[derive(Clone, Copy, Debug, PartialEq, Eq, Structural)]
pub enum StaleKind {
    /// Every stored token was already past its expiry when the request went out.
    TokenExpired,
    /// No usable token in either store.
    NotSignedIn,
    /// The endpoint asked to back off.
    RateLimited,
    /// The request never reached the endpoint.
    Unreachable,
    /// Anything else; the reason text carries the detail.
    Unknown,
}

/// The rate-limit windows of one provider.
#[derive(Clone, Debug)]
pub struct ProviderLimits {
    pub provider: ProviderId,
    pub windows: Vec<ProviderLimit>,
    /// The windows come from the last good response rather than a live one.
    pub stale: bool,
    /// When the cached windows were saved, in epoch milliseconds.
    pub cached_at: Option<u64>,
    /// Why the windows are cached.
    pub stale_reason: Option<String>,
    /// The same reason as a value to branch on.
    pub stale_kind: Option<StaleKind>,
    pub plan: Option<String>,
    pub credit_balance: Option<String>,
}

/// A labelled count for today.
#[derive(Clone, Debug)]
pub struct SummaryMetric {
    pub label: String,
    pub value: i64,
}

/// One day of the activity chart.
#[derive(Clone, Debug)]
pub struct ActivityPoint {
    pub date: String,
    pub value: i64,
}

/// One row of the per-model breakdown.
#[derive(Clone, Debug)]
pub struct BreakdownRow {
    pub key: String,
    pub value: i64,
}

/// Usage statistics of one provider.
#[derive(Clone, Debug)]
pub struct ProviderStats {
    pub provider: ProviderId,
    pub metrics: Vec<SummaryMetric>,
    pub activity_label: String,
    pub daily14: Vec<ActivityPoint>,
    pub breakdown_label: String,
    pub breakdown: Vec<BreakdownRow>,
    pub footer: Vec<String>,
    pub since: Option<String>,
    pub data_scope: Option<String>,
    pub last_updated: String,
}

/// The text of an optional string.
pub open spec fn opt_text(o: Option<String>) -> Option<Seq<char>> {
    match o {
        Some(s) => Some(s@),
        None => None,
    }
}

/// The value of an optional number.
pub open spec fn opt_number(o: Option<JsonNumber>) -> Option<NumberView> {
    match o {
        Some(n) => Some(n@),
        None => None,
    }
}

/// The mathematical form of a `ProviderLimit`.
pub struct LimitView {
    pub id: Seq<char>,
    pub title: Seq<char>,
    pub utilization: Option<NumberView>,
    pub resets_at: Option<Seq<char>>,
    pub window_minutes: Option<i64>,
}

impl View for ProviderLimit {
    type V = LimitView;

    open spec fn view(&self) -> LimitView {
        LimitView {
            id: self.id@,
            title: self.title@,
            utilization: opt_number(self.utilization),
            resets_at: opt_text(self.resets_at),
            window_minutes: self.window_minutes,
        }
    }
}

/// The mathematical form of a list of windows.
pub open spec fn windows_view(ws: Seq<ProviderLimit>) -> Seq<LimitView> {
    ws.map_values(|w: ProviderLimit| w@)
}

/// The mathematical form of `ProviderLimits`.
pub struct LimitsView {
    pub provider: ProviderId,
    pub windows: Seq<LimitView>,
    pub stale: bool,
    pub cached_at: Option<u64>,
    pub stale_reason: Option<Seq<char>>,
    pub stale_kind: Option<StaleKind>,
    pub plan: Option<Seq<char>>,
    pub credit_balance: Option<Seq<char>>,
}

impl View for ProviderLimits {
    type V = LimitsView;

    open spec fn view(&self) -> LimitsView {
        LimitsView {
            provider: self.provider,
            windows: windows_view(self.windows@),
            stale: self.stale,
            cached_at: self.cached_at,
            stale_reason: opt_text(self.stale_reason),
            stale_kind: self.stale_kind,
            plan: opt_text(self.plan),
            credit_balance: opt_text(self.credit_balance),
        }
    }
}

/// The mathematical form of a labelled count: (label, value).
pub open spec fn metric_view(m: SummaryMetric) -> (Seq<char>, i64) {
    (m.label@, m.value)
}

/// The mathematical form of a chart point: (date, value).
pub open spec fn point_view(p: ActivityPoint) -> (Seq<char>, i64) {
    (p.date@, p.value)
}

/// The mathematical form of a breakdown row: (key, value).
pub open spec fn row_view(r: BreakdownRow) -> (Seq<char>, i64) {
    (r.key@, r.value)
}

/// The labelled counts of a list.
pub open spec fn metrics_view(ms: Seq<SummaryMetric>) -> Seq<(Seq<char>, i64)> {
    ms.map_values(|m: SummaryMetric| metric_view(m))
}

/// The chart points of a list.
pub open spec fn points_view(ps: Seq<ActivityPoint>) -> Seq<(Seq<char>, i64)> {
    ps.map_values(|p: ActivityPoint| point_view(p))
}

/// The breakdown rows of a list.
pub open spec fn rows_view(rs: Seq<BreakdownRow>) -> Seq<(Seq<char>, i64)> {
    rs.map_values(|r: BreakdownRow| row_view(r))
}

/// The mathematical form of `ProviderStats`.
pub struct StatsView {
    pub provider: ProviderId,
    pub metrics: Seq<(Seq<char>, i64)>,
    pub activity_label: Seq<char>,
    pub daily14: Seq<(Seq<char>, i64)>,
    pub breakdown_label: Seq<char>,
    pub breakdown: Seq<(Seq<char>, i64)>,
    pub footer: Seq<Seq<char>>,
    pub since: Option<Seq<char>>,
    pub data_scope: Option<Seq<char>>,
    pub last_updated: Seq<char>,
}

impl View for ProviderStats {
    type V = StatsView;

    open spec fn view(&self) -> StatsView {
        StatsView {
            provider: self.provider,
            metrics: metrics_view(self.metrics@),
            activity_label: self.activity_label@,
            daily14: points_view(self.daily14@),
            breakdown_label: self.breakdown_label@,
            breakdown: rows_view(self.breakdown@),
            footer: texts_view(self.footer@),
            since: opt_text(self.since),
            data_scope: opt_text(self.data_scope),
            last_updated: self.last_updated@,
        }
    }
}

/// A copy of an optional string.
pub fn copy_text(o: &Option<String>) -> (r: Option<String>)
    ensures
        opt_text(r) == opt_text(*o),
{
    match o {
        Some(s) => Some(s.clone()),
        None => None,
    }
}

/// A copy of a window.
pub fn copy_limit(w: &ProviderLimit) -> (r: ProviderLimit)
    ensures
        r@ == w@,
{
    ProviderLimit {
        id: w.id.clone(),
        title: w.title.clone(),
        utilization: match &w.utilization {
            Some(n) => Some(copy_number(n)),
            None => None,
        },
        resets_at: copy_text(&w.resets_at),
        window_minutes: w.window_minutes,
    }
}

/// A copy of a list of windows.
pub fn copy_limits(ws: &Vec<ProviderLimit>) -> (r: Vec<ProviderLimit>)
    ensures
        windows_view(r@) == windows_view(ws@),
{
    let mut out: Vec<ProviderLimit> = Vec::new();
    let mut i: usize = 0;
    while i < ws.len()
        invariant
            0 <= i <= ws.len(),
            out@.len() == i,
            windows_view(out@) == windows_view(ws@.take(i as int)),
        decreases ws.len() - i,
    {
        let ghost prev = out@;
        out.push(copy_limit(&ws[i]));
        proof {
            assert(ws@.take(i + 1) == ws@.take(i as int).push(ws@[i as int]));
            assert forall|k: int| 0 <= k < i implies #[trigger] windows_view(out@)[k]
                == windows_view(ws@.take(i + 1))[k] by {
                assert(windows_view(prev)[k] == windows_view(ws@.take(i as int))[k]);
            }
            assert(windows_view(out@) =~= windows_view(ws@.take(i + 1)));
        }
        i = i + 1;
    }
    proof {
        assert(ws@.take(ws.len() as int) == ws@);
    }
    out
}

} // verus!
