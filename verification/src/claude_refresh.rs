//! One refresh of the usage-endpoint card: the cache of the last good windows, the choice of OAuth
//! token, the reading of the usage endpoint's reply, and the decisions that tie them together.
//! The reading and writing of files, the keychain and the network call stay with the caller,
//! which hands each result back to these functions.
use vstd::prelude::*;
use crate::claude_limits::{api_error, api_error_message, live_windows, parse_live_windows};
use crate::json::{
    as_array, as_str, as_u64, copy_number, get_str, get_u64, json_syntax, member, opt_view,
    parse_json, read, read_json, Json, JsonNumber, JsonView, NumberView,
};
use crate::providers::{
    copy_limit, copy_limits, opt_number, opt_text, windows_view, LimitView, LimitsView,
    ProviderId, ProviderLimit, ProviderLimits, StaleKind,
};
use crate::text::{
    append_chars, append_str, chars_of, decimal, decimal_chars, parse_u32, parse_unsigned,
    string_of_vec, trim_chars, trimmed,
};
use crate::timestamps::{iso_to_epoch_ms, text_epoch_ms, text_reading_panics};

verus! {

/// How long the usage endpoint is left alone after it answers 429, in milliseconds.
pub const RATE_LIMIT_BACKOFF_MS: u64 = 600000;

/// A window in the cache's earlier shape, before the endpoint described model-scoped windows.
#[derive(Debug)]
pub struct LimitWindow {
    pub utilization: Option<JsonNumber>,
    pub resets_at: Option<String>,
}

/// The mathematical form of a `LimitWindow`.
pub struct LegacyView {
    pub utilization: Option<NumberView>,
    pub resets_at: Option<Seq<char>>,
}

impl View for LimitWindow {
    type V = LegacyView;

    open spec fn view(&self) -> LegacyView {
        LegacyView { utilization: opt_number(self.utilization), resets_at: opt_text(self.resets_at) }
    }
}

/// The view of an optional legacy window.
pub open spec fn opt_legacy(o: Option<LimitWindow>) -> Option<LegacyView> {
    match o {
        Some(w) => Some(w@),
        None => None,
    }
}

/// What the card last fetched, kept on disk between refreshes.
#[derive(Debug)]
pub struct CachedLimits {
    /// The windows of the last good response; the set is server-defined.
    pub windows: Vec<ProviderLimit>,
    /// When they were saved, in epoch milliseconds.
    pub saved_at: Option<u64>,
    /// No request goes out before this instant (epoch milliseconds).
    pub retry_after: Option<u64>,
    /// The earlier shape's session window; read, never written.
    pub five_hour: Option<LimitWindow>,
    /// The earlier shape's weekly window; read, never written.
    pub seven_day: Option<LimitWindow>,
}

/// The mathematical form of `CachedLimits`.
pub struct CacheView {
    pub windows: Seq<LimitView>,
    pub saved_at: Option<u64>,
    pub retry_after: Option<u64>,
    pub five_hour: Option<LegacyView>,
    pub seven_day: Option<LegacyView>,
}

impl View for CachedLimits {
    type V = CacheView;

    open spec fn view(&self) -> CacheView {
        CacheView {
            windows: windows_view(self.windows@),
            saved_at: self.saved_at,
            retry_after: self.retry_after,
            five_hour: opt_legacy(self.five_hour),
            seven_day: opt_legacy(self.seven_day),
        }
    }
}

/// The empty cache: no windows, nothing saved, no back-off.
pub open spec fn empty_cache() -> CacheView {
    CacheView {
        windows: Seq::empty(),
        saved_at: None,
        retry_after: None,
        five_hour: None,
        seven_day: None,
    }
}

impl Default for CachedLimits {
    fn default() -> (r: CachedLimits)
        ensures
            r@ == empty_cache(),
    {
        let r = CachedLimits {
            windows: Vec::new(),
            saved_at: None,
            retry_after: None,
            five_hour: None,
            seven_day: None,
        };
        assert(r@.windows =~= Seq::<LimitView>::empty());
        r
    }
}

/// A copy of an optional legacy window.
fn copy_legacy(o: &Option<LimitWindow>) -> (r: Option<LimitWindow>)
    ensures
        opt_legacy(r) == opt_legacy(*o),
{
    match o {
        Some(w) => Some(
            LimitWindow {
                utilization: match &w.utilization {
                    Some(n) => Some(copy_number(n)),
                    None => None,
                },
                resets_at: match &w.resets_at {
                    Some(t) => Some(t.clone()),
                    None => None,
                },
            },
        ),
        None => None,
    }
}

/// A copy of a cache.
pub fn copy_cache(c: &CachedLimits) -> (r: CachedLimits)
    ensures
        r@ == c@,
{
    CachedLimits {
        windows: copy_limits(&c.windows),
        saved_at: c.saved_at,
        retry_after: c.retry_after,
        five_hour: copy_legacy(&c.five_hour),
        seven_day: copy_legacy(&c.seven_day),
    }
}

/// The window that a legacy cached window stands for, if it is there.
pub open spec fn legacy_cached(
    w: Option<LegacyView>,
    id: Seq<char>,
    title: Seq<char>,
    minutes: i64,
) -> Seq<LimitView> {
    match w {
        Some(l) => seq![
            LimitView {
                id,
                title,
                utilization: l.utilization,
                resets_at: l.resets_at,
                window_minutes: Some(minutes),
            },
        ],
        None => Seq::empty(),
    }
}

/// The windows a cache holds: its window list, or, when that is empty, the windows of the
/// earlier shape (session, then the weekly window over all models).
pub open spec fn cached_windows(c: CacheView) -> Seq<LimitView> {
    if c.windows.len() > 0 {
        c.windows
    } else {
        legacy_cached(c.five_hour, "five-hour"@, "Current session"@, 300) + legacy_cached(
            c.seven_day,
            "seven-day"@,
            "Current week (all models)"@,
            10080,
        )
    }
}

/// A window from an optional legacy window.
fn legacy_limit(w: &Option<LimitWindow>, id: &str, title: &str, minutes: i64, out: &mut Vec<
    ProviderLimit,
>)
    ensures
        windows_view(final(out)@) == windows_view(old(out)@) + legacy_cached(
            opt_legacy(*w),
            id@,
            title@,
            minutes,
        ),
{
    match w {
        Some(l) => {
            let ghost before = out@;
            out.push(
                ProviderLimit {
                    id: id.to_owned(),
                    title: title.to_owned(),
                    utilization: match &l.utilization {
                        Some(n) => Some(copy_number(n)),
                        None => None,
                    },
                    resets_at: match &l.resets_at {
                        Some(t) => Some(t.clone()),
                        None => None,
                    },
                    window_minutes: Some(minutes),
                },
            );
            proof {
                assert(windows_view(out@) =~= windows_view(before) + legacy_cached(
                    opt_legacy(*w),
                    id@,
                    title@,
                    minutes,
                ));
            }
        },
        None => {
            proof {
                assert(windows_view(out@) =~= windows_view(out@) + Seq::<LimitView>::empty());
            }
        },
    }
}

impl CachedLimits {
    /// The windows the cache holds; a cache written in the earlier shape still yields its
    /// session and weekly windows, so an upgrade with no network has something to show.
    pub fn windows(&self) -> (r: Vec<ProviderLimit>)
        ensures
            windows_view(r@) == cached_windows(self@),
    {
        if self.windows.len() > 0 {
            return copy_limits(&self.windows);
        }
        let mut out: Vec<ProviderLimit> = Vec::new();
        proof {
            assert(windows_view(out@) =~= Seq::<LimitView>::empty());
        }
        legacy_limit(&self.five_hour, "five-hour", "Current session", 300, &mut out);
        legacy_limit(&self.seven_day, "seven-day", "Current week (all models)", 10080, &mut out);
        proof {
            assert(windows_view(out@) =~= cached_windows(self@));
        }
        out
    }
}

/// A window whose reset time has passed at `now` (epoch milliseconds): it describes a window
/// that no longer exists. A reset time that does not read leaves the window current.
pub open spec fn expired(w: LimitView, now: int) -> bool {
    match w.resets_at {
        Some(t) => match text_epoch_ms(t) {
            Some(ms) => ms <= now,
            None => false,
        },
        None => false,
    }
}

/// A window whose reset time can be read without slicing inside a character.
pub open spec fn readable(w: LimitView) -> bool {
    match w.resets_at {
        Some(t) => !text_reading_panics(t),
        None => true,
    }
}

/// Every window the cache holds is readable.
pub open spec fn cache_readable(c: CacheView) -> bool {
    forall|i: int| 0 <= i < cached_windows(c).len() ==> readable(#[trigger] cached_windows(c)[i])
}

/// Whether a window has expired at `now`.
pub fn window_expired(window: &ProviderLimit, now: u64) -> (r: bool)
    requires
        readable(window@),
    ensures
        r == expired(window@, now as int),
{
    match &window.resets_at {
        Some(t) => match iso_to_epoch_ms(t.as_str()) {
            Some(ms) => ms <= now,
            None => false,
        },
        None => false,
    }
}

/// The windows of `ws` that have not expired at `now`, in order.
pub open spec fn current_windows(ws: Seq<LimitView>, now: int) -> Seq<LimitView>
    decreases ws.len(),
{
    if ws.len() == 0 {
        Seq::empty()
    } else if expired(ws.last(), now) {
        current_windows(ws.drop_last(), now)
    } else {
        current_windows(ws.drop_last(), now).push(ws.last())
    }
}

/// What a card shows from its cache when a refresh fails with `error` of kind `kind`: the
/// cached windows that have not expired, marked stale with the time they were saved and the
/// reason; when none is left, the error itself.
pub open spec fn from_cache(c: CacheView, error: Seq<char>, kind: StaleKind, now: int) -> Result<
    LimitsView,
    Seq<char>,
> {
    let ws = current_windows(cached_windows(c), now);
    if ws.len() == 0 {
        Err(error)
    } else {
        Ok(
            LimitsView {
                provider: ProviderId::Claude,
                windows: ws,
                stale: true,
                cached_at: c.saved_at,
                stale_reason: Some(error),
                stale_kind: Some(kind),
                plan: None,
                credit_balance: None,
            },
        )
    }
}

/// The view of a card's answer.
pub open spec fn answer_view(r: Result<ProviderLimits, String>) -> Result<LimitsView, Seq<char>> {
    match r {
        Ok(l) => Ok(l@),
        Err(e) => Err(e@),
    }
}

/// The card from the cache after a failed refresh: the windows that have not expired at
/// `now`, stale, with the reason; the error itself when every cached window has expired.
pub fn limits_from_cache(cache: &CachedLimits, error: &str, kind: StaleKind, now: u64) -> (r:
    Result<ProviderLimits, String>)
    requires
        cache_readable(cache@),
    ensures
        answer_view(r) == from_cache(cache@, error@, kind, now as int),
{
    let all = cache.windows();
    let ghost cw = cached_windows(cache@);
    let mut kept: Vec<ProviderLimit> = Vec::new();
    let mut i: usize = 0;
    proof {
        assert(cw.take(0) =~= Seq::<LimitView>::empty());
        assert(windows_view(kept@) =~= Seq::<LimitView>::empty());
    }
    while i < all.len()
        invariant
            0 <= i <= all.len(),
            windows_view(all@) == cw,
            cache_readable(cache@),
            cw == cached_windows(cache@),
            windows_view(kept@) == current_windows(cw.take(i as int), now as int),
        decreases all.len() - i,
    {
        proof {
            assert(cw[i as int] == all@[i as int]@);
            assert(readable(cw[i as int]));
            assert(cw.take(i + 1).drop_last() == cw.take(i as int));
            assert(cw.take(i + 1).last() == cw[i as int]);
        }
        if !window_expired(&all[i], now) {
            let ghost before = kept@;
            kept.push(copy_limit(&all[i]));
            proof {
                assert(windows_view(kept@) =~= windows_view(before).push(cw[i as int]));
            }
        }
        i = i + 1;
    }
    proof {
        assert(cw.take(all.len() as int) == cw);
    }
    if kept.len() == 0 {
        return Err(error.to_owned());
    }
    Ok(
        ProviderLimits {
            provider: ProviderId::Claude,
            windows: kept,
            stale: true,
            cached_at: cache.saved_at,
            stale_reason: Some(error.to_owned()),
            stale_kind: Some(kind),
            plan: None,
            credit_balance: None,
        },
    )
}

proof fn lemma_current_windows(ws: Seq<LimitView>, now: int)
    ensures
        forall|i: int|
            0 <= i < current_windows(ws, now).len() ==> !expired(
                #[trigger] current_windows(ws, now)[i],
                now,
            ),
        current_windows(ws, now).len() == 0 <==> forall|i: int|
            0 <= i < ws.len() ==> expired(#[trigger] ws[i], now),
    decreases ws.len(),
{
    if ws.len() > 0 {
        let rest = ws.drop_last();
        lemma_current_windows(rest, now);
        assert forall|i: int| 0 <= i < rest.len() implies #[trigger] rest[i] == ws[i] by {}
        if current_windows(ws, now).len() == 0 {
            assert forall|i: int| 0 <= i < ws.len() implies expired(#[trigger] ws[i], now) by {
                if i < rest.len() {
                    assert(rest[i] == ws[i]);
                }
            }
        }
        if forall|i: int| 0 <= i < ws.len() ==> expired(#[trigger] ws[i], now) {
            assert(expired(ws.last(), now));
            assert forall|i: int| 0 <= i < rest.len() implies expired(#[trigger] rest[i], now) by {
                assert(rest[i] == ws[i]);
            }
        }
    }
}

/// Expiry is permanent: a window expired at one time is expired at every later time, so a card
/// served from the cache only loses windows as time passes.
pub proof fn law_expiry_is_permanent(w: LimitView, now: int, later: int)
    requires
        now <= later,
        expired(w, now),
    ensures
        expired(w, later),
{
}

/// A window whose reset time has passed is never shown as current usage: every window of a
/// card served from the cache is unexpired at the time it is served.
pub proof fn law_cache_serves_no_expired_window(
    c: CacheView,
    error: Seq<char>,
    kind: StaleKind,
    now: int,
)
    ensures
        from_cache(c, error, kind, now) matches Ok(l) ==> forall|i: int|
            0 <= i < l.windows.len() ==> !expired(#[trigger] l.windows[i], now),
{
    lemma_current_windows(cached_windows(c), now);
}

/// A cache in which every window has expired surfaces the error instead of an empty card; a
/// cache with any current window shows a stale card with the error as its reason.
pub proof fn law_expired_cache_surfaces_error(
    c: CacheView,
    error: Seq<char>,
    kind: StaleKind,
    now: int,
)
    ensures
        (from_cache(c, error, kind, now) == Err::<LimitsView, Seq<char>>(error)) <==> forall|i: int|
            0 <= i < cached_windows(c).len() ==> expired(#[trigger] cached_windows(c)[i], now),
        from_cache(c, error, kind, now) matches Ok(l) ==> l.stale && l.stale_reason == Some(error)
            && l.stale_kind == Some(kind) && l.cached_at == c.saved_at,
{
    lemma_current_windows(cached_windows(c), now);
}

/// `Option<f64>` as serde reads it from a member: absent or null is `None`, a number is kept,
/// anything else does not read (the outer `None`).
pub open spec fn de_opt_number(o: Option<JsonView>) -> Option<Option<NumberView>> {
    match o {
        None => Some(None),
        Some(JsonView::Null) => Some(None),
        Some(JsonView::Number(n)) => Some(Some(n)),
        _ => None,
    }
}

/// `Option<String>` as serde reads it from a member.
pub open spec fn de_opt_text(o: Option<JsonView>) -> Option<Option<Seq<char>>> {
    match o {
        None => Some(None),
        Some(JsonView::Null) => Some(None),
        Some(JsonView::Str(t)) => Some(Some(t)),
        _ => None,
    }
}

/// `Option<i64>` as serde reads it from a member: an integer that fits.
pub open spec fn de_opt_i64(o: Option<JsonView>) -> Option<Option<i64>> {
    match o {
        None => Some(None),
        Some(JsonView::Null) => Some(None),
        Some(JsonView::Number(NumberView::PosInt(u))) => if u <= i64::MAX as u64 {
            Some(Some(u as i64))
        } else {
            None
        },
        Some(JsonView::Number(NumberView::NegInt(i))) => Some(Some(i)),
        _ => None,
    }
}

/// `Option<u64>` as serde reads it from a member: a non-negative integer.
pub open spec fn de_opt_u64(o: Option<JsonView>) -> Option<Option<u64>> {
    match o {
        None => Some(None),
        Some(JsonView::Null) => Some(None),
        Some(JsonView::Number(NumberView::PosInt(u))) => Some(Some(u)),
        _ => None,
    }
}

/// A required `String` member.
pub open spec fn de_text(o: Option<JsonView>) -> Option<Seq<char>> {
    match o {
        Some(JsonView::Str(t)) => Some(t),
        _ => None,
    }
}

/// A cached window (`id`, `title`, `utilization`, `resetsAt`, `windowMinutes`); other members
/// are ignored.
pub open spec fn de_window(j: JsonView) -> Option<LimitView> {
    let v = Some(j);
    if j is Object {
        match (
            de_text(member(v, "id"@)),
            de_text(member(v, "title"@)),
            de_opt_number(member(v, "utilization"@)),
            de_opt_text(member(v, "resetsAt"@)),
            de_opt_i64(member(v, "windowMinutes"@)),
        ) {
            (Some(id), Some(title), Some(utilization), Some(resets_at), Some(window_minutes)) => Some(
                LimitView { id, title, utilization, resets_at, window_minutes },
            ),
            _ => None,
        }
    } else {
        None
    }
}

/// A list of cached windows; it reads only when every element does.
pub open spec fn de_windows(items: Seq<JsonView>) -> Option<Seq<LimitView>>
    decreases items.len(),
{
    if items.len() == 0 {
        Some(Seq::empty())
    } else {
        match (de_windows(items.drop_last()), de_window(items.last())) {
            (Some(ws), Some(w)) => Some(ws.push(w)),
            _ => None,
        }
    }
}

/// An optional window of the earlier shape (`utilization`, `resetsAt`).
pub open spec fn de_legacy(o: Option<JsonView>) -> Option<Option<LegacyView>> {
    match o {
        None => Some(None),
        Some(JsonView::Null) => Some(None),
        Some(JsonView::Object(_)) => match (
            de_opt_number(member(o, "utilization"@)),
            de_opt_text(member(o, "resetsAt"@)),
        ) {
            (Some(utilization), Some(resets_at)) => Some(Some(LegacyView { utilization, resets_at })),
            _ => None,
        },
        _ => None,
    }
}

/// The `windows` member: absent is an empty list, an array reads element by element.
pub open spec fn de_window_list(o: Option<JsonView>) -> Option<Seq<LimitView>> {
    match o {
        None => Some(Seq::empty()),
        Some(JsonView::Array(_)) => de_windows(as_array(o)->0),
        _ => None,
    }
}

/// The cache file's contents, as serde reads the camelCase object; `None` when the text is
/// not JSON, not an object, or a member has the wrong type.
pub open spec fn de_cache(text: Seq<char>) -> Option<CacheView> {
    let d = read(text);
    match d {
        Some(JsonView::Object(_)) => match (
            de_window_list(member(d, "windows"@)),
            de_opt_u64(member(d, "savedAt"@)),
            de_opt_u64(member(d, "retryAfter"@)),
            de_legacy(member(d, "fiveHour"@)),
            de_legacy(member(d, "sevenDay"@)),
        ) {
            (Some(windows), Some(saved_at), Some(retry_after), Some(five_hour), Some(seven_day)) => Some(
                CacheView { windows, saved_at, retry_after, five_hour, seven_day },
            ),
            _ => None,
        },
        _ => None,
    }
}

/// Reading a cache file back keeps the back-off it holds: a `retryAfter` written as a
/// non-negative integer reads as that number (and so does a `savedAt`), and a file that holds
/// no windows (or an empty list), no earlier-shape windows and at most a save time besides
/// always reads.
pub proof fn law_decoding_keeps_written_members(text: Seq<char>, n: u64)
    requires
        read(text) matches Some(JsonView::Object(_)),
        as_u64(member(read(text), "retryAfter"@)) == Some(n),
    ensures
        (de_cache(text) matches Some(c) ==> c.retry_after == Some(n)),
        (de_cache(text) matches Some(c) ==> (as_u64(member(read(text), "savedAt"@)) matches Some(
            m,
        ) ==> c.saved_at == Some(m))),
        ((member(read(text), "windows"@) is None || as_array(member(read(text), "windows"@)) == Some(
            Seq::<JsonView>::empty(),
        )) && (member(read(text), "savedAt"@) is None || as_u64(member(read(text), "savedAt"@))
            is Some) && member(read(text), "fiveHour"@) is None && member(read(text), "sevenDay"@)
            is None ==> de_cache(text) is Some),
{
}

fn read_opt_number(o: &Option<Json>) -> (r: Option<Option<JsonNumber>>)
    ensures
        match r {
            Some(v) => de_opt_number(opt_view(*o)) == Some(opt_number(v)),
            None => de_opt_number(opt_view(*o)) is None,
        },
{
    match o {
        None => Some(None),
        Some(Json::Null) => Some(None),
        Some(Json::Number(n)) => Some(Some(copy_number(n))),
        _ => None,
    }
}

fn read_opt_text(o: &Option<Json>) -> (r: Option<Option<String>>)
    ensures
        match r {
            Some(v) => de_opt_text(opt_view(*o)) == Some(opt_text(v)),
            None => de_opt_text(opt_view(*o)) is None,
        },
{
    match o {
        None => Some(None),
        Some(Json::Null) => Some(None),
        Some(Json::Str(t)) => Some(Some(t.clone())),
        _ => None,
    }
}

fn read_opt_i64(o: &Option<Json>) -> (r: Option<Option<i64>>)
    ensures
        r == de_opt_i64(opt_view(*o)),
{
    match o {
        None => Some(None),
        Some(Json::Null) => Some(None),
        Some(Json::Number(JsonNumber::PosInt(u))) => if *u <= i64::MAX as u64 {
            Some(Some(*u as i64))
        } else {
            None
        },
        Some(Json::Number(JsonNumber::NegInt(i))) => Some(Some(*i)),
        _ => None,
    }
}

fn read_opt_u64(o: &Option<Json>) -> (r: Option<Option<u64>>)
    ensures
        r == de_opt_u64(opt_view(*o)),
{
    match o {
        None => Some(None),
        Some(Json::Null) => Some(None),
        Some(Json::Number(JsonNumber::PosInt(u))) => Some(Some(*u)),
        _ => None,
    }
}

fn read_text(o: &Option<Json>) -> (r: Option<String>)
    ensures
        opt_text(r) == de_text(opt_view(*o)),
{
    match o {
        Some(Json::Str(t)) => Some(t.clone()),
        _ => None,
    }
}

fn read_window(j: &Json) -> (r: Option<ProviderLimit>)
    ensures
        match r {
            Some(w) => de_window(j@) == Some(w@),
            None => de_window(j@) is None,
        },
{
    match j {
        Json::Object(_) => {
            let id = read_text(&j.member("id"));
            let title = read_text(&j.member("title"));
            let utilization = read_opt_number(&j.member("utilization"));
            let resets_at = read_opt_text(&j.member("resetsAt"));
            let window_minutes = read_opt_i64(&j.member("windowMinutes"));
            match (id, title, utilization, resets_at, window_minutes) {
                (Some(id), Some(title), Some(utilization), Some(resets_at), Some(window_minutes)) => Some(
                    ProviderLimit { id, title, utilization, resets_at, window_minutes },
                ),
                _ => None,
            }
        },
        _ => None,
    }
}

fn read_windows(items: &Vec<Json>) -> (r: Option<Vec<ProviderLimit>>)
    ensures
        match r {
            Some(ws) => de_windows(items@.map_values(|j: Json| j@)) == Some(windows_view(ws@)),
            None => de_windows(items@.map_values(|j: Json| j@)) is None,
        },
{
    let ghost iv = items@.map_values(|j: Json| j@);
    let mut out: Vec<ProviderLimit> = Vec::new();
    let mut i: usize = 0;
    proof {
        assert(iv.take(0) =~= Seq::<JsonView>::empty());
        assert(windows_view(out@) =~= Seq::<LimitView>::empty());
    }
    while i < items.len()
        invariant
            0 <= i <= items.len(),
            iv == items@.map_values(|j: Json| j@),
            de_windows(iv.take(i as int)) == Some(windows_view(out@)),
        decreases items.len() - i,
    {
        proof {
            assert(iv.take(i + 1).drop_last() == iv.take(i as int));
            assert(iv.take(i + 1).last() == items@[i as int]@);
        }
        match read_window(&items[i]) {
            Some(w) => {
                let ghost before = out@;
                out.push(w);
                proof {
                    assert(windows_view(out@) =~= windows_view(before).push(w@));
                }
            },
            None => {
                proof {
                    assert(iv == items@.map_values(|j: Json| j@));
                    let k = items.len() as int;
                    lemma_de_windows_stays_none(iv, i as int + 1, k);
                    assert(iv.take(k) == iv);
                }
                return None;
            },
        }
        i = i + 1;
    }
    proof {
        assert(iv.take(items.len() as int) == iv);
    }
    Some(out)
}

proof fn lemma_de_windows_stays_none(items: Seq<JsonView>, i: int, k: int)
    requires
        0 < i <= k <= items.len(),
        de_windows(items.take(i)) is None,
    ensures
        de_windows(items.take(k)) is None,
    decreases k - i,
{
    if i < k {
        assert(items.take(i + 1).drop_last() == items.take(i));
        lemma_de_windows_stays_none(items, i + 1, k);
    }
}

fn read_legacy(o: &Option<Json>) -> (r: Option<Option<LimitWindow>>)
    ensures
        match r {
            Some(v) => de_legacy(opt_view(*o)) == Some(opt_legacy(v)),
            None => de_legacy(opt_view(*o)) is None,
        },
{
    match o {
        None => Some(None),
        Some(Json::Null) => Some(None),
        Some(Json::Object(_)) => {
            let utilization = read_opt_number(&crate::json::get(o, "utilization"));
            let resets_at = read_opt_text(&crate::json::get(o, "resetsAt"));
            match (utilization, resets_at) {
                (Some(utilization), Some(resets_at)) => Some(
                    Some(LimitWindow { utilization, resets_at }),
                ),
                _ => None,
            }
        },
        _ => None,
    }
}

/// Reads the cache file's text: the camelCase object that the cache is written as, or the
/// earlier shape with `fiveHour` and `sevenDay`; `None` when it does not read.
pub fn decode_cache(text: &str) -> (r: Option<CachedLimits>)
    ensures
        match r {
            Some(c) => de_cache(text@) == Some(c@),
            None => de_cache(text@) is None,
        },
{
    let d = read_json(text);
    match &d {
        Some(Json::Object(_)) => {
            let list = crate::json::get(&d, "windows");
            let windows = match &list {
                None => {
                    let empty: Vec<ProviderLimit> = Vec::new();
                    assert(windows_view(empty@) =~= Seq::<LimitView>::empty());
                    Some(empty)
                },
                Some(Json::Array(_)) => {
                    let items = match &list {
                        Some(l) => l.elements(),
                        None => None,
                    };
                    match items {
                        Some(items) => read_windows(&items),
                        None => None,
                    }
                },
                _ => None,
            };
            let saved_at = read_opt_u64(&crate::json::get(&d, "savedAt"));
            let retry_after = read_opt_u64(&crate::json::get(&d, "retryAfter"));
            let five_hour = read_legacy(&crate::json::get(&d, "fiveHour"));
            let seven_day = read_legacy(&crate::json::get(&d, "sevenDay"));
            match (windows, saved_at, retry_after, five_hour, seven_day) {
                (Some(windows), Some(saved_at), Some(retry_after), Some(five_hour), Some(seven_day)) => Some(
                    CachedLimits { windows, saved_at, retry_after, five_hour, seven_day },
                ),
                _ => None,
            }
        },
        _ => None,
    }
}

/// The cache a refresh starts from: the current cache file, else the file an earlier version
/// wrote, else an empty cache (a file that is missing or does not read counts as absent).
pub open spec fn loaded_cache(primary: Option<Seq<char>>, legacy: Option<Seq<char>>) -> CacheView {
    let p = match primary {
        Some(t) => de_cache(t),
        None => None,
    };
    let l = match legacy {
        Some(t) => de_cache(t),
        None => None,
    };
    match p {
        Some(c) => c,
        None => match l {
            Some(c) => c,
            None => empty_cache(),
        },
    }
}

/// The cache a refresh starts from, given the texts of the current and the earlier cache file.
pub fn load_cache(primary: &Option<String>, legacy: &Option<String>) -> (r: CachedLimits)
    ensures
        r@ == loaded_cache(opt_text(*primary), opt_text(*legacy)),
{
    let p = match primary {
        Some(t) => decode_cache(t.as_str()),
        None => None,
    };
    match p {
        Some(c) => c,
        None => {
            let l = match legacy {
                Some(t) => decode_cache(t.as_str()),
                None => None,
            };
            match l {
                Some(c) => c,
                None => CachedLimits::default(),
            }
        },
    }
}

/// An OAuth token that the CLI stored.
#[derive(Debug)]
pub struct OauthToken {
    pub access_token: String,
    /// When it expires, in epoch milliseconds; `None` when the store does not say.
    pub expires_at: Option<u64>,
}

/// The mathematical form of an `OauthToken`.
pub struct TokenView {
    pub access_token: Seq<char>,
    pub expires_at: Option<u64>,
}

impl View for OauthToken {
    type V = TokenView;

    open spec fn view(&self) -> TokenView {
        TokenView { access_token: self.access_token@, expires_at: self.expires_at }
    }
}

/// The token in a credentials blob (`{"claudeAiOauth":{"accessToken":..,"expiresAt":..}}`),
/// as the keychain and the credentials file both store it; surrounding whitespace is ignored.
pub open spec fn oauth_blob(raw: Seq<char>) -> Option<TokenView> {
    let oauth = member(read(trimmed(raw)), "claudeAiOauth"@);
    match oauth {
        None => None,
        Some(_) => match as_str(member(oauth, "accessToken"@)) {
            Some(token) => Some(
                TokenView { access_token: token, expires_at: as_u64(member(oauth, "expiresAt"@)) },
            ),
            None => None,
        },
    }
}

/// Reads a credentials blob from either store.
pub fn parse_oauth_blob(raw: &str) -> (r: Option<OauthToken>)
    ensures
        match r {
            Some(t) => oauth_blob(raw@) == Some(t@),
            None => oauth_blob(raw@) is None,
        },
{
    let chars = chars_of(raw);
    let text = string_of_vec(&trim_chars(&chars));
    let credentials = read_json(text.as_str());
    let oauth = crate::json::get(&credentials, "claudeAiOauth");
    match &oauth {
        None => None,
        Some(_) => match get_str(&crate::json::get(&oauth, "accessToken")) {
            Some(token) => Some(
                OauthToken {
                    access_token: token,
                    expires_at: get_u64(&crate::json::get(&oauth, "expiresAt")),
                },
            ),
            None => None,
        },
    }
}

/// How long a token stays valid, for ordering: a token without an expiry sorts as the latest.
pub open spec fn token_key(t: TokenView) -> int {
    match t.expires_at {
        Some(e) => e as int,
        None => u64::MAX as int,
    }
}

/// A token that has not expired at `now`.
pub open spec fn usable(t: TokenView, now: int) -> bool {
    match t.expires_at {
        Some(e) => e > now,
        None => true,
    }
}

/// Candidate `i` is the usable one valid for longest, the earlier one on a tie.
pub open spec fn best_usable(ts: Seq<TokenView>, i: int, now: int) -> bool {
    &&& 0 <= i < ts.len()
    &&& usable(ts[i], now)
    &&& forall|j: int|
        0 <= j < ts.len() && usable(#[trigger] ts[j], now) ==> token_key(ts[j]) <= token_key(ts[i])
            && (j < i ==> token_key(ts[j]) < token_key(ts[i]))
}

/// Candidate `i` is the one valid for longest, the earlier one on a tie.
pub open spec fn best_any(ts: Seq<TokenView>, i: int) -> bool {
    &&& 0 <= i < ts.len()
    &&& forall|j: int|
        0 <= j < ts.len() ==> token_key(#[trigger] ts[j]) <= token_key(ts[i]) && (j < i
            ==> token_key(ts[j]) < token_key(ts[i]))
}

/// No candidate is usable at `now`.
pub open spec fn all_expired(ts: Seq<TokenView>, now: int) -> bool {
    forall|j: int| 0 <= j < ts.len() ==> !usable(#[trigger] ts[j], now)
}

/// Candidate `i` is the token to send at `now`: the usable one valid for longest, or, when
/// none is usable, the one valid for longest.
pub open spec fn chosen(ts: Seq<TokenView>, i: int, now: int) -> bool {
    best_usable(ts, i, now) || (all_expired(ts, now) && best_any(ts, i))
}

/// `t` is the access token of the candidate to send at `now`.
pub open spec fn is_chosen_token(ts: Seq<TokenView>, now: int, t: Seq<char>) -> bool {
    exists|i: int| #[trigger] chosen(ts, i, now) && t == ts[i].access_token
}

/// The views of a list of tokens.
pub open spec fn tokens_view(ts: Seq<OauthToken>) -> Seq<TokenView> {
    ts.map_values(|t: OauthToken| t@)
}

/// The token to send, from the candidates of both stores (the credentials file first): the
/// one valid for longest among those not expired at `now`; when every one has expired, the
/// newest anyway, so that the endpoint reports the failure. `None` only without candidates.
pub fn select_token(candidates: &Vec<OauthToken>, now: u64) -> (r: Option<String>)
    ensures
        r is None <==> candidates@.len() == 0,
        r matches Some(t) ==> is_chosen_token(tokens_view(candidates@), now as int, t@),
{
    let ghost ts = tokens_view(candidates@);
    let mut usable_best: Option<usize> = None;
    let mut any_best: Option<usize> = None;
    let mut i: usize = 0;
    while i < candidates.len()
        invariant
            0 <= i <= candidates.len(),
            ts == tokens_view(candidates@),
            ts.len() == candidates@.len(),
            match usable_best {
                Some(b) => b < i && usable(ts[b as int], now as int) && forall|j: int|
                    0 <= j < i && usable(#[trigger] ts[j], now as int) ==> token_key(ts[j])
                        <= token_key(ts[b as int]) && (j < b ==> token_key(ts[j]) < token_key(
                        ts[b as int],
                    )),
                None => forall|j: int| 0 <= j < i ==> !usable(#[trigger] ts[j], now as int),
            },
            match any_best {
                Some(b) => b < i && forall|j: int|
                    0 <= j < i ==> token_key(#[trigger] ts[j]) <= token_key(ts[b as int]) && (j
                        < b ==> token_key(ts[j]) < token_key(ts[b as int])),
                None => i == 0,
            },
        decreases candidates.len() - i,
    {
        let key: u64 = match candidates[i].expires_at {
            Some(e) => e,
            None => u64::MAX,
        };
        let fresh = match candidates[i].expires_at {
            Some(e) => e > now,
            None => true,
        };
        proof {
            assert(ts[i as int] == candidates@[i as int]@);
            assert(key as int == token_key(ts[i as int]));
            assert(fresh == usable(ts[i as int], now as int));
        }
        if fresh {
            let better = match usable_best {
                None => true,
                Some(b) => {
                    let bk: u64 = match candidates[b].expires_at {
                        Some(e) => e,
                        None => u64::MAX,
                    };
                    proof {
                        assert(ts[b as int] == candidates@[b as int]@);
                    }
                    key > bk
                },
            };
            if better {
                usable_best = Some(i);
            }
        }
        let better_any = match any_best {
            None => true,
            Some(b) => {
                let bk: u64 = match candidates[b].expires_at {
                    Some(e) => e,
                    None => u64::MAX,
                };
                proof {
                    assert(ts[b as int] == candidates@[b as int]@);
                }
                key > bk
            },
        };
        if better_any {
            any_best = Some(i);
        }
        i = i + 1;
    }
    match usable_best {
        Some(b) => {
            proof {
                assert(best_usable(ts, b as int, now as int));
                assert(chosen(ts, b as int, now as int));
                assert(ts[b as int].access_token == candidates@[b as int].access_token@);
            }
            Some(candidates[b].access_token.clone())
        },
        None => match any_best {
            Some(b) => {
                proof {
                    assert(best_any(ts, b as int));
                    assert(all_expired(ts, now as int));
                    assert(chosen(ts, b as int, now as int));
                    assert(ts[b as int].access_token == candidates@[b as int].access_token@);
                }
                Some(candidates[b].access_token.clone())
            },
            None => None,
        },
    }
}

/// Whether there are candidates and every one has expired at `now`.
pub fn all_tokens_expired(candidates: &Vec<OauthToken>, now: u64) -> (r: bool)
    ensures
        r == (candidates@.len() > 0 && all_expired(tokens_view(candidates@), now as int)),
{
    let ghost ts = tokens_view(candidates@);
    let mut i: usize = 0;
    while i < candidates.len()
        invariant
            0 <= i <= candidates.len(),
            ts == tokens_view(candidates@),
            forall|j: int| 0 <= j < i ==> !usable(#[trigger] ts[j], now as int),
        decreases candidates.len() - i,
    {
        proof {
            assert(ts[i as int] == candidates@[i as int]@);
        }
        let fresh = match candidates[i].expires_at {
            Some(e) => e > now,
            None => true,
        };
        if fresh {
            return false;
        }
        i = i + 1;
    }
    candidates.len() > 0
}

/// The reply of the usage endpoint: the HTTP status and the body.
#[derive(Debug)]
pub struct UsageResponse {
    pub status: u32,
    pub body: String,
}

/// The text of the error that `String::from_utf8` reports for bytes that are not UTF-8.
pub uninterp spec fn utf8_error(bytes: Seq<u8>) -> Seq<char>;

/// `String::from_utf8`: the text the bytes encode when they are valid UTF-8; otherwise the
/// error's `Display` text.
#[verifier::external_body]
fn utf8_text(bytes: Vec<u8>) -> (r: Result<String, String>)
    ensures
        match r {
            Ok(s) => vstd::utf8::valid_utf8(bytes@) && vstd::utf8::encode_utf8(s@) == bytes@,
            Err(e) => !vstd::utf8::valid_utf8(bytes@) && e@ == utf8_error(bytes@),
        },
{
    match String::from_utf8(bytes) {
        Ok(text) => Ok(text),
        Err(error) => Err(error.to_string()),
    }
}

/// Position of the last line feed of `s`.
pub open spec fn last_newline(s: Seq<char>) -> Option<int>
    decreases s.len(),
{
    if s.len() == 0 {
        None
    } else if s.last() == '\n' {
        Some(s.len() - 1)
    } else {
        last_newline(s.drop_last())
    }
}

/// The reply in curl's output text (`-w "\n%{http_code}"`): the body before the last line
/// feed and the status after it (`0` when that does not read as a number).
pub open spec fn reply_of_text(s: Seq<char>) -> Result<(u32, Seq<char>), Seq<char>> {
    match last_newline(s) {
        None => Err("Usage endpoint returned no response"@),
        Some(k) => Ok(
            (
                match parse_unsigned(trimmed(s.subrange(k + 1, s.len() as int)), u32::MAX as int) {
                    Some(v) => v as u32,
                    None => 0u32,
                },
                s.subrange(0, k),
            ),
        ),
    }
}

/// What curl's output bytes say: the reply, when they are UTF-8.
pub open spec fn usage_reply(bytes: Seq<u8>) -> Result<(u32, Seq<char>), Seq<char>> {
    if !vstd::utf8::valid_utf8(bytes) {
        Err("UTF-8 error: "@ + utf8_error(bytes))
    } else {
        reply_of_text(vstd::utf8::decode_utf8(bytes))
    }
}

/// The view of a fetch's result.
pub open spec fn fetch_view(r: Result<UsageResponse, String>) -> Result<(u32, Seq<char>), Seq<char>> {
    match r {
        Ok(u) => Ok((u.status, u.body@)),
        Err(e) => Err(e@),
    }
}

/// Reads curl's output into the endpoint's reply.
pub fn read_usage_output(stdout: Vec<u8>) -> (r: Result<UsageResponse, String>)
    ensures
        fetch_view(r) == usage_reply(stdout@),
{
    let raw = match utf8_text(stdout) {
        Ok(raw) => raw,
        Err(error) => {
            let mut message = chars_of("UTF-8 error: ");
            append_str(&mut message, error.as_str());
            return Err(string_of_vec(&message));
        },
    };
    proof {
        vstd::utf8::encode_utf8_decode_utf8(raw@);
    }
    split_reply(raw.as_str())
}

/// Splits curl's output text into the body and the status.
fn split_reply(raw: &str) -> (r: Result<UsageResponse, String>)
    ensures
        fetch_view(r) == reply_of_text(raw@),
{
    let chars = chars_of(raw);
    let mut k: usize = chars.len();
    proof {
        assert(chars@.take(chars.len() as int) == chars@);
    }
    while k > 0 && chars[k - 1] != '\n'
        invariant
            0 <= k <= chars.len(),
            last_newline(chars@) == last_newline(chars@.take(k as int)),
        decreases k,
    {
        proof {
            assert(chars@.take(k as int).drop_last() == chars@.take(k - 1));
        }
        k = k - 1;
    }
    if k == 0 {
        proof {
            assert(chars@.take(0) =~= Seq::<char>::empty());
        }
        return Err("Usage endpoint returned no response".to_owned());
    }
    proof {
        assert(chars@.take(k as int).last() == '\n');
        assert(last_newline(chars@) == Some(k - 1));
    }
    let mut body: Vec<char> = Vec::new();
    let mut i: usize = 0;
    while i < k - 1
        invariant
            0 <= i <= k - 1,
            k <= chars.len(),
            body@ == chars@.subrange(0, i as int),
        decreases k - 1 - i,
    {
        body.push(chars[i]);
        proof {
            assert(chars@.subrange(0, i + 1) == chars@.subrange(0, i as int).push(chars@[i as int]));
        }
        i = i + 1;
    }
    let mut tail: Vec<char> = Vec::new();
    let mut j: usize = k;
    while j < chars.len()
        invariant
            k <= j <= chars.len(),
            tail@ == chars@.subrange(k as int, j as int),
        decreases chars.len() - j,
    {
        tail.push(chars[j]);
        proof {
            assert(chars@.subrange(k as int, j + 1) == chars@.subrange(k as int, j as int).push(
                chars@[j as int],
            ));
        }
        j = j + 1;
    }
    let status = match parse_u32(&trim_chars(&tail)) {
        Some(v) => v,
        None => 0,
    };
    Ok(UsageResponse { status, body: string_of_vec(&body) })
}

/// The endpoint's back-off is still running at `now`.
pub open spec fn backoff_active(c: CacheView, now: int) -> bool {
    c.retry_after matches Some(until) && now < until
}

/// The first step of a refresh: while the endpoint's back-off lasts no request goes out and
/// the card is served from the cache; `None` means go on and read the credentials.
pub fn begin_refresh(cache: &CachedLimits, now: u64) -> (r: Option<Result<ProviderLimits, String>>)
    requires
        cache_readable(cache@),
    ensures
        match r {
            Some(a) => backoff_active(cache@, now as int) && answer_view(a) == from_cache(
                cache@,
                "Usage endpoint rate limited"@,
                StaleKind::RateLimited,
                now as int,
            ),
            None => !backoff_active(cache@, now as int),
        },
{
    match cache.retry_after {
        Some(until) => if now < until {
            Some(limits_from_cache(cache, "Usage endpoint rate limited", StaleKind::RateLimited, now))
        } else {
            None
        },
        None => None,
    }
}

/// The credentials a request goes out with.
#[derive(Debug)]
pub struct Credentials {
    pub token: String,
    /// Every stored token had expired when the request went out.
    pub all_expired: bool,
}

/// The second step: the token to send, chosen from the candidates that the two stores hold;
/// without any candidate the card is served from the cache, as not signed in, with `missing`
/// as the stale reason (the caller names the CLI whose credentials it looked for).
pub fn choose_credentials(
    cache: &CachedLimits,
    candidates: &Vec<OauthToken>,
    missing: &str,
    now: u64,
) -> (r:
    Result<Credentials, Result<ProviderLimits, String>>)
    requires
        cache_readable(cache@),
    ensures
        match r {
            Ok(c) => candidates@.len() > 0 && is_chosen_token(
                tokens_view(candidates@),
                now as int,
                c.token@,
            ) && c.all_expired == all_expired(tokens_view(candidates@), now as int),
            Err(a) => candidates@.len() == 0 && answer_view(a) == from_cache(
                cache@,
                missing@,
                StaleKind::NotSignedIn,
                now as int,
            ),
        },
{
    match select_token(candidates, now) {
        Some(token) => Ok(Credentials { token, all_expired: all_tokens_expired(candidates, now) }),
        None => Err(
            limits_from_cache(
                cache,
                missing,
                StaleKind::NotSignedIn,
                now,
            ),
        ),
    }
}

/// What a refresh that made a request leaves behind: the cache to write, if any, and the card.
#[derive(Debug)]
pub struct RefreshOutcome {
    pub save: Option<CachedLimits>,
    pub answer: Result<ProviderLimits, String>,
}

/// The view of an optional cache.
pub open spec fn opt_cache(o: Option<CachedLimits>) -> Option<CacheView> {
    match o {
        Some(c) => Some(c@),
        None => None,
    }
}

/// The kind of a failure that the endpoint reported after the request went out.
pub open spec fn failure_kind(all_expired: bool) -> StaleKind {
    if all_expired {
        StaleKind::TokenExpired
    } else {
        StaleKind::Unknown
    }
}

/// The last step of a refresh, from the fetch's result. A failed fetch serves the cache as
/// unreachable. A 429 starts the back-off and serves the cache as rate limited. A body that
/// is not JSON, an error body or a status other than 200 serves the cache with the reason,
/// classified as an expired token when every stored token had expired. Otherwise the
/// response is authoritative: its windows are the card, live, and replace the cache.
pub open spec fn refresh_result(
    c: CacheView,
    fetched: Result<(u32, Seq<char>), Seq<char>>,
    all_expired: bool,
    now: int,
) -> (Option<CacheView>, Result<LimitsView, Seq<char>>) {
    match fetched {
        Err(e) => (None, from_cache(c, e, StaleKind::Unreachable, now)),
        Ok((status, body)) => if status == 429 {
            (
                Some(CacheView { retry_after: Some((now + RATE_LIMIT_BACKOFF_MS) as u64), ..c }),
                from_cache(c, "Usage endpoint rate limited"@, StaleKind::RateLimited, now),
            )
        } else {
            match json_syntax(body) {
                Err(e) => (None, from_cache(c, "JSON error: "@ + e, failure_kind(all_expired), now)),
                Ok(data) => match api_error(data) {
                    Some(m) => (None, from_cache(c, m, failure_kind(all_expired), now)),
                    None => if status != 200 {
                        (
                            None,
                            from_cache(
                                c,
                                "Usage endpoint HTTP "@ + decimal(status as nat),
                                failure_kind(all_expired),
                                now,
                            ),
                        )
                    } else {
                        (
                            Some(
                                CacheView {
                                    windows: live_windows(data),
                                    saved_at: Some(now as u64),
                                    retry_after: None,
                                    five_hour: None,
                                    seven_day: None,
                                },
                            ),
                            Ok(
                                LimitsView {
                                    provider: ProviderId::Claude,
                                    windows: live_windows(data),
                                    stale: false,
                                    cached_at: None,
                                    stale_reason: None,
                                    stale_kind: None,
                                    plan: None,
                                    credit_balance: None,
                                },
                            ),
                        )
                    },
                },
            }
        },
    }
}

/// The card from a reason and a kind of failure.
fn failed(cache: &CachedLimits, reason: Vec<char>, kind: StaleKind, now: u64) -> (r:
    RefreshOutcome)
    requires
        cache_readable(cache@),
    ensures
        r.save is None,
        answer_view(r.answer) == from_cache(cache@, reason@, kind, now as int),
{
    let text = string_of_vec(&reason);
    RefreshOutcome { save: None, answer: limits_from_cache(cache, text.as_str(), kind, now) }
}

/// The last step of a refresh: what the fetch's result means for the cache and the card.
pub fn finish_refresh(
    cache: &CachedLimits,
    fetched: Result<UsageResponse, String>,
    all_expired: bool,
    now: u64,
) -> (r: RefreshOutcome)
    requires
        cache_readable(cache@),
        now + RATE_LIMIT_BACKOFF_MS <= u64::MAX,
    ensures
        (opt_cache(r.save), answer_view(r.answer)) == refresh_result(
            cache@,
            fetch_view(fetched),
            all_expired,
            now as int,
        ),
{
    let kind = if all_expired {
        StaleKind::TokenExpired
    } else {
        StaleKind::Unknown
    };
    let response = match fetched {
        Err(e) => {
            return RefreshOutcome {
                save: None,
                answer: limits_from_cache(cache, e.as_str(), StaleKind::Unreachable, now),
            };
        },
        Ok(response) => response,
    };
    if response.status == 429 {
        let mut saved = copy_cache(cache);
        saved.retry_after = Some(now + RATE_LIMIT_BACKOFF_MS);
        return RefreshOutcome {
            save: Some(saved),
            answer: limits_from_cache(
                cache,
                "Usage endpoint rate limited",
                StaleKind::RateLimited,
                now,
            ),
        };
    }
    let data = match parse_json(response.body.as_str()) {
        Err(e) => {
            let mut reason = chars_of("JSON error: ");
            append_str(&mut reason, e.as_str());
            return failed(cache, reason, kind, now);
        },
        Ok(data) => data,
    };
    match api_error_message(&data) {
        Some(m) => {
            return failed(cache, chars_of(m.as_str()), kind, now);
        },
        None => {},
    }
    if response.status != 200 {
        let mut reason = chars_of("Usage endpoint HTTP ");
        let digits = decimal_chars(response.status as u64);
        append_chars(&mut reason, &digits);
        return failed(cache, reason, kind, now);
    }
    let live = parse_live_windows(&data);
    let shown = copy_limits(&live);
    RefreshOutcome {
        save: Some(
            CachedLimits {
                windows: live,
                saved_at: Some(now),
                retry_after: None,
                five_hour: None,
                seven_day: None,
            },
        ),
        answer: Ok(
            ProviderLimits {
                provider: ProviderId::Claude,
                windows: shown,
                stale: false,
                cached_at: None,
                stale_reason: None,
                stale_kind: None,
                plan: None,
                credit_balance: None,
            },
        ),
    }
}

/// After a 429 the endpoint is left alone for the back-off period: the cache written then
/// keeps every window and makes each refresh until the period ends serve the same cached card
/// as rate limited, without a request; from the end of the period requests go out again.
pub proof fn law_rate_limit_backoff(
    c: CacheView,
    body: Seq<char>,
    all_expired: bool,
    now: int,
    later: int,
)
    requires
        0 <= now,
        now + RATE_LIMIT_BACKOFF_MS <= u64::MAX,
    ensures
        ({
            let (save, answer) = refresh_result(
                c,
                Ok::<(u32, Seq<char>), Seq<char>>((429u32, body)),
                all_expired,
                now,
            );
            &&& save matches Some(s)
            &&& answer == from_cache(c, "Usage endpoint rate limited"@, StaleKind::RateLimited, now)
            &&& cached_windows(s) == cached_windows(c)
            &&& (now <= later < now + RATE_LIMIT_BACKOFF_MS ==> backoff_active(s, later))
            &&& (later >= now + RATE_LIMIT_BACKOFF_MS ==> !backoff_active(s, later))
            &&& forall|e: Seq<char>, k: StaleKind| #[trigger]
                from_cache(s, e, k, later) == from_cache(c, e, k, later)
        }),
{
}

/// A successful response is authoritative: the card is its windows, live, whatever the cache
/// held; they replace the cache, which starts no back-off.
pub proof fn law_success_is_authoritative(
    c1: CacheView,
    c2: CacheView,
    body: Seq<char>,
    all_expired: bool,
    now: int,
    later: int,
)
    requires
        0 <= now <= u64::MAX,
        read(body) matches Some(d) && api_error(d) is None,
    ensures
        ({
            let d = read(body)->0;
            let (save, answer) = refresh_result(
                c1,
                Ok::<(u32, Seq<char>), Seq<char>>((200u32, body)),
                all_expired,
                now,
            );
            &&& answer matches Ok(l) && !l.stale && l.windows == live_windows(d) && l.stale_reason
                is None && l.stale_kind is None
            &&& answer == refresh_result(
                c2,
                Ok::<(u32, Seq<char>), Seq<char>>((200u32, body)),
                all_expired,
                now,
            ).1
            &&& save matches Some(s) && cached_windows(s) == live_windows(d) && !backoff_active(
                s,
                later,
            ) && s.saved_at == Some(now as u64)
        }),
{
    let d = read(body)->0;
    if live_windows(d).len() == 0 {
        assert(live_windows(d) =~= legacy_cached(None, "five-hour"@, "Current session"@, 300)
            + legacy_cached(None, "seven-day"@, "Current week (all models)"@, 10080));
    }
}

} // verus!
