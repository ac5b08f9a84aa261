//! Codex rate-limit windows: the snapshot that the Codex app-server reports, and the cache of
//! its last answer that serves the card while the app-server is unavailable.
use vstd::prelude::*;
use crate::json::{
    as_i64, as_number, as_str, as_u64, get, get_i64, get_number, get_str, get_u64, member,
    opt_view, read, read_json, Json, JsonView,
};
use crate::providers::{
    opt_text, windows_view, LimitView, LimitsView, ProviderId, ProviderLimit, ProviderLimits,
};
use crate::text::{append_str, chars_of, decimal, decimal_chars, string_of_vec};
use crate::timestamps::{iso_text, timestamp_to_iso};

verus! {

/// The label of a window: by its length when that is a known or whole number of days or
/// hours, else by its id.
pub open spec fn title_of(id: Seq<char>, duration: Option<i64>) -> Seq<char> {
    match duration {
        Some(m) => if m == 300 {
            "5-hour usage"@
        } else if m == 10080 {
            "Weekly usage"@
        } else if m > 0 && m % 1440 == 0 {
            decimal((m / 1440) as nat) + "-day usage"@
        } else if m > 0 && m % 60 == 0 {
            decimal((m / 60) as nat) + "-hour usage"@
        } else {
            title_by_id(id)
        },
        None => title_by_id(id),
    }
}

/// The label of a window whose length says nothing.
pub open spec fn title_by_id(id: Seq<char>) -> Seq<char> {
    if id == "primary"@ {
        "Primary usage"@
    } else if id == "secondary"@ {
        "Secondary usage"@
    } else {
        "Usage"@
    }
}

fn title_from_id(id: &str) -> (r: String)
    ensures
        r@ == title_by_id(id@),
{
    let chars = chars_of(id);
    if crate::text::chars_eq_str(&chars, "primary") {
        "Primary usage".to_owned()
    } else if crate::text::chars_eq_str(&chars, "secondary") {
        "Secondary usage".to_owned()
    } else {
        "Usage".to_owned()
    }
}

/// The label of window `id` of `duration` minutes.
pub fn window_title(id: &str, duration: Option<i64>) -> (r: String)
    ensures
        r@ == title_of(id@, duration),
{
    match duration {
        Some(m) => if m == 300 {
            "5-hour usage".to_owned()
        } else if m == 10080 {
            "Weekly usage".to_owned()
        } else if m > 0 && m % 1440 == 0 {
            let mut out = decimal_chars((m / 1440) as u64);
            append_str(&mut out, "-day usage");
            string_of_vec(&out)
        } else if m > 0 && m % 60 == 0 {
            let mut out = decimal_chars((m / 60) as u64);
            append_str(&mut out, "-hour usage");
            string_of_vec(&out)
        } else {
            title_from_id(id)
        },
        None => title_from_id(id),
    }
}

/// Window `id` as the snapshot describes it: its length (`windowDurationMins`), the percent
/// used (`usedPercent`) and the reset time (`resetsAt`, seconds since 1970) in RFC 3339 form.
pub open spec fn window_of(id: Seq<char>, w: JsonView) -> LimitView {
    let duration = as_i64(member(Some(w), "windowDurationMins"@));
    LimitView {
        id,
        title: title_of(id, duration),
        utilization: as_number(member(Some(w), "usedPercent"@)),
        resets_at: match as_i64(member(Some(w), "resetsAt"@)) {
            Some(t) => Some(iso_text(t as int)),
            None => None,
        },
        window_minutes: duration,
    }
}

/// A window of the snapshot, when the member is an object.
pub open spec fn snapshot_window(id: Seq<char>, w: Option<JsonView>) -> Option<LimitView> {
    match w {
        Some(JsonView::Object(fields)) => Some(window_of(id, JsonView::Object(fields))),
        _ => None,
    }
}

/// Builds window `id` from the snapshot's object `window`.
pub fn make_window(id: &str, title: String, duration: Option<i64>, window: &Json) -> (r: ProviderLimit)
    ensures
        r@ == (LimitView {
            id: id@,
            title: title@,
            utilization: as_number(member(Some(window@), "usedPercent"@)),
            resets_at: match as_i64(member(Some(window@), "resetsAt"@)) {
                Some(t) => Some(iso_text(t as int)),
                None => None,
            },
            window_minutes: duration,
        }),
{
    let w = Some(window.clone_json());
    ProviderLimit {
        id: id.to_owned(),
        title,
        utilization: get_number(&get(&w, "usedPercent")),
        resets_at: match get_i64(&get(&w, "resetsAt")) {
            Some(t) => Some(timestamp_to_iso(t)),
            None => None,
        },
        window_minutes: duration,
    }
}

/// Window `id` of the snapshot, when the member is an object.
pub fn parse_window(id: &str, window: &Option<Json>) -> (r: Option<ProviderLimit>)
    ensures
        match r {
            Some(l) => snapshot_window(id@, opt_view(*window)) == Some(l@),
            None => snapshot_window(id@, opt_view(*window)) is None,
        },
{
    match window {
        Some(Json::Object(_)) => {
            let w = match window {
                Some(w) => w,
                None => return None,
            };
            let duration = get_i64(&get(window, "windowDurationMins"));
            Some(make_window(id, window_title(id, duration), duration, w))
        },
        _ => None,
    }
}

/// The snapshot a rate-limit answer describes: the one for `codex` in `rateLimitsByLimitId`
/// when there is one, else `rateLimits`; `None` without `rateLimits`.
pub open spec fn snapshot_of(value: JsonView) -> Option<JsonView> {
    match member(Some(value), "rateLimits"@) {
        None => None,
        Some(fallback) => match member(member(Some(value), "rateLimitsByLimitId"@), "codex"@) {
            Some(s) => Some(s),
            None => Some(fallback),
        },
    }
}

/// The card of a rate-limit answer: the primary and secondary windows that are there, the
/// plan and the credit balance; an error without a snapshot or without any window.
pub open spec fn codex_limits(value: JsonView, stale: bool, cached_at: Option<u64>) -> Result<
    LimitsView,
    Seq<char>,
> {
    match snapshot_of(value) {
        None => Err("Codex returned no rate-limit data"@),
        Some(s) => {
            let primary = snapshot_window("primary"@, member(Some(s), "primary"@));
            let secondary = snapshot_window("secondary"@, member(Some(s), "secondary"@));
            let windows = (match primary {
                Some(w) => seq![w],
                None => Seq::empty(),
            }) + (match secondary {
                Some(w) => seq![w],
                None => Seq::empty(),
            });
            if windows.len() == 0 {
                Err("Codex returned no active rate-limit windows"@)
            } else {
                Ok(
                    LimitsView {
                        provider: ProviderId::Codex,
                        windows,
                        stale,
                        cached_at,
                        stale_reason: None,
                        stale_kind: None,
                        plan: as_str(member(Some(s), "planType"@)),
                        credit_balance: as_str(member(member(Some(s), "credits"@), "balance"@)),
                    },
                )
            }
        },
    }
}

/// The window, if there is one, as a sequence.
pub open spec fn some_window(o: Option<ProviderLimit>) -> Seq<LimitView> {
    match o {
        Some(w) => seq![w@],
        None => Seq::empty(),
    }
}

/// The view of a card's answer.
pub open spec fn limits_answer(r: Result<ProviderLimits, String>) -> Result<LimitsView, Seq<char>> {
    match r {
        Ok(l) => Ok(l@),
        Err(e) => Err(e@),
    }
}

/// The Codex card from a rate-limit answer; `stale` and `cached_at` say whether it came from
/// the cache and when that was saved.
pub fn parse_limits(value: &Json, stale: bool, cached_at: Option<u64>) -> (r: Result<
    ProviderLimits,
    String,
>)
    ensures
        limits_answer(r) == codex_limits(value@, stale, cached_at),
{
    let v = Some(value.clone_json());
    let fallback = get(&v, "rateLimits");
    if fallback.is_none() {
        return Err("Codex returned no rate-limit data".to_owned());
    }
    let by_id = get(&get(&v, "rateLimitsByLimitId"), "codex");
    let snapshot = match by_id {
        Some(s) => Some(s),
        None => fallback,
    };
    let mut windows: Vec<ProviderLimit> = Vec::new();
    let primary = parse_window("primary", &get(&snapshot, "primary"));
    let secondary = parse_window("secondary", &get(&snapshot, "secondary"));
    let ghost pv = some_window(primary);
    let ghost sv = some_window(secondary);
    match primary {
        Some(w) => windows.push(w),
        None => {},
    }
    match secondary {
        Some(w) => windows.push(w),
        None => {},
    }
    proof {
        assert(windows_view(windows@) =~= pv + sv);
    }
    if windows.len() == 0 {
        return Err("Codex returned no active rate-limit windows".to_owned());
    }
    Ok(
        ProviderLimits {
            provider: ProviderId::Codex,
            windows,
            stale,
            cached_at,
            stale_reason: None,
            stale_kind: None,
            plan: get_str(&get(&snapshot, "planType")),
            credit_balance: get_str(&get(&get(&snapshot, "credits"), "balance")),
        },
    )
}

/// An app-server answer kept on disk: when it was saved and the value.
#[derive(Debug)]
pub struct RpcCache {
    pub saved_at: u64,
    pub value: Json,
}

/// The cache file's contents: an object with `savedAt` (a non-negative integer) and `value`.
pub open spec fn rpc_cache_of(text: Seq<char>) -> Option<(u64, JsonView)> {
    let d = read(text);
    match d {
        Some(JsonView::Object(_)) => match (as_u64(member(d, "savedAt"@)), member(d, "value"@)) {
            (Some(saved_at), Some(value)) => Some((saved_at, value)),
            _ => None,
        },
        _ => None,
    }
}

/// Reads the cache file of an app-server answer.
pub fn decode_rpc_cache(text: &str) -> (r: Option<RpcCache>)
    ensures
        match r {
            Some(c) => rpc_cache_of(text@) == Some((c.saved_at, c.value@)),
            None => rpc_cache_of(text@) is None,
        },
{
    let d = read_json(text);
    match &d {
        Some(Json::Object(_)) => match (get_u64(&get(&d, "savedAt")), get(&d, "value")) {
            (Some(saved_at), Some(value)) => Some(RpcCache { saved_at, value }),
            _ => None,
        },
        _ => None,
    }
}

/// An answer and where it came from.
#[derive(Debug)]
pub struct Fetched {
    pub value: Json,
    /// It came from the cache.
    pub stale: bool,
    /// When the cache was saved.
    pub cached_at: Option<u64>,
}

/// What a request through the cache leaves behind.
#[derive(Debug)]
pub struct CachedRequest {
    /// When set, the live answer is to be saved with this time.
    pub save_at: Option<u64>,
    pub answer: Result<Fetched, String>,
}

/// A live answer is used and saved; when the request failed the cached answer is used,
/// marked stale with the time it was saved; without one the request's error stands.
pub open spec fn cached_request(
    live: Result<JsonView, Seq<char>>,
    cached: Option<(u64, JsonView)>,
    now: u64,
) -> (Option<u64>, Result<(JsonView, bool, Option<u64>), Seq<char>>) {
    match live {
        Ok(v) => (Some(now), Ok((v, false, None))),
        Err(e) => match cached {
            Some((saved_at, v)) => (None, Ok((v, true, Some(saved_at)))),
            None => (None, Err(e)),
        },
    }
}

/// The view of a live answer.
pub open spec fn live_view(r: Result<Json, String>) -> Result<JsonView, Seq<char>> {
    match r {
        Ok(v) => Ok(v@),
        Err(e) => Err(e@),
    }
}

/// The view of what a request through the cache leaves behind.
pub open spec fn cached_request_view(r: CachedRequest) -> (
    Option<u64>,
    Result<(JsonView, bool, Option<u64>), Seq<char>>,
) {
    (
        r.save_at,
        match r.answer {
            Ok(f) => Ok((f.value@, f.stale, f.cached_at)),
            Err(e) => Err(e@),
        },
    )
}

/// A request through the cache: `live` is the app-server's answer and `cached_text` the cache
/// file's text (needed only when the request failed).
pub fn request_with_cache(live: Result<Json, String>, cached_text: &Option<String>, now: u64) -> (r:
    CachedRequest)
    ensures
        cached_request_view(r) == cached_request(
            live_view(live),
            match opt_text(*cached_text) {
                Some(t) => rpc_cache_of(t),
                None => None,
            },
            now,
        ),
{
    match live {
        Ok(value) => CachedRequest {
            save_at: Some(now),
            answer: Ok(Fetched { value, stale: false, cached_at: None }),
        },
        Err(error) => {
            let cached = match cached_text {
                Some(t) => decode_rpc_cache(t.as_str()),
                None => None,
            };
            match cached {
                Some(c) => CachedRequest {
                    save_at: None,
                    answer: Ok(Fetched { value: c.value, stale: true, cached_at: Some(c.saved_at) }),
                },
                None => CachedRequest { save_at: None, answer: Err(error) },
            }
        },
    }
}

/// The Codex card: the rate-limit answer through the cache, read into windows.
pub fn get_limits(live: Result<Json, String>, cached_text: &Option<String>, now: u64) -> (r: (
    Option<u64>,
    Result<ProviderLimits, String>,
))
    ensures
        ({
            let (save, answer) = cached_request(
                live_view(live),
                match opt_text(*cached_text) {
                    Some(t) => rpc_cache_of(t),
                    None => None,
                },
                now,
            );
            &&& r.0 == save
            &&& limits_answer(r.1) == match answer {
                Ok((v, stale, cached_at)) => codex_limits(v, stale, cached_at),
                Err(e) => Err(e),
            }
        }),
{
    let fetched = request_with_cache(live, cached_text, now);
    let answer = match fetched.answer {
        Ok(f) => parse_limits(&f.value, f.stale, f.cached_at),
        Err(e) => Err(e),
    };
    (fetched.save_at, answer)
}

} // verus!
