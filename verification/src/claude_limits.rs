//! Rate-limit windows of the usage endpoint: reading its response, the cache of the
//! last good windows, and the decisions of one refresh.
use vstd::prelude::*;
use crate::json::{
    as_array, as_number, as_str, get, get_number, get_str, is_null, member, Json, JsonView,
};
use crate::providers::{opt_text, windows_view, LimitView, ProviderLimit};
use crate::text::{append_chars, append_str, chars_eq_str, chars_of, string_of_vec};

verus! {

/// An ASCII letter or digit (`char::is_ascii_alphanumeric`).
pub open spec fn is_ascii_alnum(c: char) -> bool {
    ('0' <= c <= '9') || ('a' <= c <= 'z') || ('A' <= c <= 'Z')
}

/// A character of a window id: ASCII letters and digits lower-cased, anything else `-`.
pub open spec fn slug_char(c: char) -> char {
    if 'A' <= c <= 'Z' {
        ((c as u32) + 32) as char
    } else if is_ascii_alnum(c) {
        c
    } else {
        '-'
    }
}

/// Index of the first character that is not `-`, `s.len()` when there is none.
pub open spec fn dash_lo(s: Seq<char>) -> int
    decreases s.len(),
{
    if s.len() == 0 || s[0] != '-' {
        0
    } else {
        1 + dash_lo(s.drop_first())
    }
}

/// One past the last character that is not `-`, `0` when there is none.
pub open spec fn dash_hi(s: Seq<char>) -> int
    decreases s.len(),
{
    if s.len() == 0 || s.last() != '-' {
        s.len() as int
    } else {
        dash_hi(s.drop_last())
    }
}

/// `str::trim_matches('-')`.
pub open spec fn strip_dashes(s: Seq<char>) -> Seq<char> {
    if dash_lo(s) < dash_hi(s) {
        s.subrange(dash_lo(s), dash_hi(s))
    } else {
        Seq::empty()
    }
}

/// The id fragment for a model's display name.
pub open spec fn slug_of(model: Seq<char>) -> Seq<char> {
    strip_dashes(model.map_values(|c: char| slug_char(c)))
}

/// A character that may stand in a window id.
pub open spec fn is_slug_char(c: char) -> bool {
    ('0' <= c <= '9') || ('a' <= c <= 'z') || c == '-'
}

proof fn lemma_dash_lo(s: Seq<char>, i: int)
    requires
        0 <= i <= s.len(),
        forall|k: int| 0 <= k < i ==> #[trigger] s[k] == '-',
        i == s.len() || s[i] != '-',
    ensures
        dash_lo(s) == i,
    decreases i,
{
    if i > 0 {
        let t = s.drop_first();
        assert forall|k: int| 0 <= k < i - 1 implies #[trigger] t[k] == '-' by {
            assert(t[k] == s[k + 1]);
        }
        lemma_dash_lo(t, i - 1);
    }
}

proof fn lemma_dash_hi(s: Seq<char>, j: int)
    requires
        0 <= j <= s.len(),
        forall|k: int| j <= k < s.len() ==> #[trigger] s[k] == '-',
        j == 0 || s[j - 1] != '-',
    ensures
        dash_hi(s) == j,
    decreases s.len(),
{
    if j < s.len() {
        let t = s.drop_last();
        assert(s[s.len() - 1] == '-');
        assert forall|k: int| j <= k < t.len() implies #[trigger] t[k] == '-' by {
            assert(t[k] == s[k]);
        }
        lemma_dash_hi(t, j);
    }
}

/// The id fragment of a model name: ASCII letters and digits lower-cased, every other
/// character a `-`, with leading and trailing `-` removed. Window ids reach the frontend as
/// keys, so they stay URL-safe whatever the name's punctuation.
pub fn window_slug(model: &str) -> (r: String)
    ensures
        r@ == slug_of(model@),
        forall|i: int| 0 <= i < r@.len() ==> is_slug_char(#[trigger] r@[i]),
        r@.len() > 0 ==> r@[0] != '-' && r@.last() != '-',
{
    let source = chars_of(model);
    let mut mapped: Vec<char> = Vec::new();
    let mut i: usize = 0;
    while i < source.len()
        invariant
            0 <= i <= source.len(),
            source@ == model@,
            mapped@ == source@.take(i as int).map_values(|c: char| slug_char(c)),
        decreases source.len() - i,
    {
        let c = source[i];
        let m = if 'A' <= c && c <= 'Z' {
            ((c as u32) + 32) as u8 as char
        } else if ('0' <= c && c <= '9') || ('a' <= c && c <= 'z') {
            c
        } else {
            '-'
        };
        mapped.push(m);
        proof {
            assert(source@.take(i + 1) == source@.take(i as int).push(c));
            assert(mapped@ =~= source@.take(i + 1).map_values(|c: char| slug_char(c)));
        }
        i = i + 1;
    }
    let ghost full = model@.map_values(|c: char| slug_char(c));
    proof {
        assert(source@.take(source.len() as int) == source@);
        assert(mapped@ == full);
    }
    let mut lo: usize = 0;
    while lo < mapped.len() && mapped[lo] == '-'
        invariant
            0 <= lo <= mapped.len(),
            forall|k: int| 0 <= k < lo ==> #[trigger] mapped@[k] == '-',
        decreases mapped.len() - lo,
    {
        lo = lo + 1;
    }
    let mut hi: usize = mapped.len();
    while hi > lo && mapped[hi - 1] == '-'
        invariant
            lo <= hi <= mapped.len(),
            forall|k: int| hi <= k < mapped.len() ==> #[trigger] mapped@[k] == '-',
        decreases hi - lo,
    {
        hi = hi - 1;
    }
    let mut out: Vec<char> = Vec::new();
    let mut j: usize = lo;
    while j < hi
        invariant
            lo <= j <= hi,
            hi <= mapped.len(),
            out@ == mapped@.subrange(lo as int, j as int),
        decreases hi - j,
    {
        out.push(mapped[j]);
        proof {
            assert(mapped@.subrange(lo as int, j + 1) == mapped@.subrange(lo as int, j as int).push(
                mapped@[j as int],
            ));
        }
        j = j + 1;
    }
    proof {
        lemma_dash_lo(mapped@, lo as int);
        if lo < mapped.len() {
            lemma_dash_hi(mapped@, hi as int);
        } else {
            lemma_dash_hi(mapped@, 0);
            assert(out@ == Seq::<char>::empty());
        }
        assert forall|k: int| 0 <= k < out@.len() implies is_slug_char(#[trigger] out@[k]) by {
            assert(out@[k] == mapped@[lo + k]);
            assert(mapped@[lo + k] == slug_char(model@[lo + k]));
        }
    }
    string_of_vec(&out)
}

/// `char::to_ascii_lowercase`.
pub open spec fn ascii_lower(c: char) -> char {
    if 'A' <= c <= 'Z' {
        ((c as u32) + 32) as char
    } else {
        c
    }
}

/// `str::to_ascii_lowercase`.
pub open spec fn lowercase(s: Seq<char>) -> Seq<char> {
    s.map_values(|c: char| ascii_lower(c))
}

proof fn lemma_dash_lo_bounds(s: Seq<char>)
    ensures
        0 <= dash_lo(s) <= s.len(),
        forall|k: int| 0 <= k < dash_lo(s) ==> #[trigger] s[k] == '-',
        dash_lo(s) < s.len() ==> s[dash_lo(s)] != '-',
    decreases s.len(),
{
    if s.len() > 0 && s[0] == '-' {
        let t = s.drop_first();
        lemma_dash_lo_bounds(t);
        assert forall|k: int| 0 <= k < dash_lo(s) implies #[trigger] s[k] == '-' by {
            if k > 0 {
                assert(s[k] == t[k - 1]);
            }
        }
        if dash_lo(s) < s.len() {
            assert(s[dash_lo(s)] == t[dash_lo(t)]);
        }
    }
}

proof fn lemma_dash_hi_bounds(s: Seq<char>)
    ensures
        0 <= dash_hi(s) <= s.len(),
        forall|k: int| dash_hi(s) <= k < s.len() ==> #[trigger] s[k] == '-',
        dash_hi(s) > 0 ==> s[dash_hi(s) - 1] != '-',
    decreases s.len(),
{
    if s.len() > 0 && s.last() == '-' {
        let t = s.drop_last();
        lemma_dash_hi_bounds(t);
        assert forall|k: int| dash_hi(s) <= k < s.len() implies #[trigger] s[k] == '-' by {
            if k < t.len() {
                assert(s[k] == t[k]);
            }
        }
        if dash_hi(s) > 0 {
            assert(s[dash_hi(s) - 1] == t[dash_hi(t) - 1]);
        }
    }
}

/// A slug is made of slug characters and neither starts nor ends with `-`.
proof fn lemma_slug_form(model: Seq<char>)
    ensures
        forall|k: int| 0 <= k < slug_of(model).len() ==> is_slug_char(#[trigger] slug_of(model)[k]),
        slug_of(model).len() > 0 ==> slug_of(model)[0] != '-' && slug_of(model).last() != '-',
{
    let mapped = model.map_values(|c: char| slug_char(c));
    lemma_dash_lo_bounds(mapped);
    lemma_dash_hi_bounds(mapped);
    let lo = dash_lo(mapped);
    let hi = dash_hi(mapped);
    if lo < hi {
        let t = slug_of(model);
        assert(t == mapped.subrange(lo, hi));
        assert forall|k: int| 0 <= k < t.len() implies is_slug_char(#[trigger] t[k]) by {
            assert(t[k] == mapped[lo + k]);
            assert(mapped[lo + k] == slug_char(model[lo + k]));
        }
        assert(t[0] == mapped[lo]);
        assert(t.last() == mapped[hi - 1]);
    }
}

/// A window id fragment is never longer than the model name it comes from.
pub proof fn law_slug_no_longer_than_model(model: Seq<char>)
    ensures
        slug_of(model).len() <= model.len(),
{
    let mapped = model.map_values(|c: char| slug_char(c));
    lemma_dash_lo_bounds(mapped);
    lemma_dash_hi_bounds(mapped);
}

/// Making a slug of a slug changes nothing.
pub proof fn law_slug_is_idempotent(model: Seq<char>)
    ensures
        slug_of(slug_of(model)) == slug_of(model),
{
    let t = slug_of(model);
    lemma_slug_form(model);
    let mapped = t.map_values(|c: char| slug_char(c));
    assert forall|k: int| 0 <= k < t.len() implies #[trigger] mapped[k] == t[k] by {
        assert(is_slug_char(t[k]));
    }
    assert(mapped =~= t);
    lemma_dash_lo(t, 0);
    if t.len() > 0 {
        lemma_dash_hi(t, t.len() as int);
        assert(t.subrange(0, t.len() as int) =~= t);
    } else {
        lemma_dash_hi(t, 0);
    }
}

/// The slug of a name made only of ASCII letters and digits is the name in lower case.
pub proof fn law_alnum_model_slug_is_lowercase(model: Seq<char>)
    requires
        forall|i: int| 0 <= i < model.len() ==> is_ascii_alnum(#[trigger] model[i]),
    ensures
        slug_of(model) == lowercase(model),
{
    let mapped = model.map_values(|c: char| slug_char(c));
    let low = lowercase(model);
    assert forall|k: int| 0 <= k < mapped.len() implies #[trigger] mapped[k] == low[k] && mapped[k]
        != '-' by {
        assert(is_ascii_alnum(model[k]));
    }
    assert(mapped =~= low);
    lemma_dash_lo(mapped, 0);
    if mapped.len() > 0 {
        lemma_dash_hi(mapped, mapped.len() as int);
        assert(mapped.subrange(0, mapped.len() as int) =~= mapped);
    } else {
        lemma_dash_hi(mapped, 0);
    }
}

/// The window that one entry of the response's `limits` array describes, with its place in
/// the display order (session, then the weekly window over all models, then model-scoped
/// weekly windows); `None` for kinds the widget does not show, and for a scoped window
/// without a model name to put on it.
pub open spec fn limit_entry(e: JsonView) -> Option<(int, LimitView)> {
    let utilization = as_number(member(Some(e), "percent"@));
    let resets_at = as_str(member(Some(e), "resets_at"@));
    let model = as_str(
        member(member(member(Some(e), "scope"@), "model"@), "display_name"@),
    );
    match as_str(member(Some(e), "kind"@)) {
        Some(kind) => if kind == "session"@ {
            Some(
                (
                    0,
                    LimitView {
                        id: "five-hour"@,
                        title: "Current session"@,
                        utilization,
                        resets_at,
                        window_minutes: Some(300),
                    },
                ),
            )
        } else if kind == "weekly_all"@ {
            Some(
                (
                    1,
                    LimitView {
                        id: "seven-day"@,
                        title: "Current week (all models)"@,
                        utilization,
                        resets_at,
                        window_minutes: Some(10080),
                    },
                ),
            )
        } else if kind == "weekly_scoped"@ {
            match model {
                Some(m) => Some(
                    (
                        2,
                        LimitView {
                            id: "seven-day-"@ + slug_of(m),
                            title: "Current week ("@ + m + " only)"@,
                            utilization,
                            resets_at,
                            window_minutes: Some(10080),
                        },
                    ),
                ),
                None => None,
            }
        } else {
            None
        },
        None => None,
    }
}

/// Every window that an entry of the `limits` array describes carries that entry's `percent`
/// as its utilization and its `resets_at` as its reset time, whatever its kind; `session` and
/// `weekly_all` entries always describe a window, the five-hour and the weekly one.
pub proof fn law_entry_window_carries_its_percent(e: JsonView)
    ensures
        (limit_entry(e) matches Some(p) ==> p.1.utilization == as_number(member(Some(e), "percent"@))
            && p.1.resets_at == as_str(member(Some(e), "resets_at"@))),
        (as_str(member(Some(e), "kind"@)) == Some("session"@) ==> (limit_entry(e) matches Some(p)
            && p.1.id == "five-hour"@ && p.1.utilization == as_number(member(Some(e), "percent"@)))),
        (as_str(member(Some(e), "kind"@)) == Some("weekly_all"@) ==> (limit_entry(e) matches Some(p)
            && p.1.id == "seven-day"@ && p.1.utilization == as_number(member(Some(e), "percent"@)))),
{
    reveal_strlit("session");
    reveal_strlit("weekly_all");
    assert("session"@.len() != "weekly_all"@.len());
}

/// The windows that the entries describe, in the entries' order, with their places.
pub open spec fn limit_entries(entries: Seq<JsonView>) -> Seq<(int, LimitView)>
    decreases entries.len(),
{
    if entries.len() == 0 {
        Seq::empty()
    } else {
        let rest = limit_entries(entries.drop_last());
        match limit_entry(entries.last()) {
            Some(p) => rest.push(p),
            None => rest,
        }
    }
}

/// The windows at place `rank`, in their order.
pub open spec fn at_rank(ps: Seq<(int, LimitView)>, rank: int) -> Seq<LimitView>
    decreases ps.len(),
{
    if ps.len() == 0 {
        Seq::empty()
    } else {
        let rest = at_rank(ps.drop_last(), rank);
        if ps.last().0 == rank {
            rest.push(ps.last().1)
        } else {
            rest
        }
    }
}

/// A window described by a legacy top-level field of the response (`five_hour`, `seven_day`);
/// absent when the field is missing or null.
pub open spec fn legacy_window(
    data: JsonView,
    key: Seq<char>,
    id: Seq<char>,
    title: Seq<char>,
    minutes: i64,
) -> Seq<LimitView> {
    match member(Some(data), key) {
        Some(v) => if is_null(v) {
            Seq::empty()
        } else {
            seq![
                LimitView {
                    id,
                    title,
                    utilization: as_number(member(Some(v), "utilization"@)),
                    resets_at: as_str(member(Some(v), "resets_at"@)),
                    window_minutes: Some(minutes),
                },
            ]
        },
        None => Seq::empty(),
    }
}

/// The windows of the legacy fields of the response.
pub open spec fn legacy_windows(data: JsonView) -> Seq<LimitView> {
    legacy_window(data, "five_hour"@, "five-hour"@, "Current session"@, 300) + legacy_window(
        data,
        "seven_day"@,
        "seven-day"@,
        "Current week (all models)"@,
        10080,
    )
}

/// The entries of the response's `limits` array (none when it is absent or not an array).
pub open spec fn limits_array(data: JsonView) -> Seq<JsonView> {
    match as_array(member(Some(data), "limits"@)) {
        Some(es) => es,
        None => Seq::empty(),
    }
}

/// The windows of a usage response: those the `limits` array describes, session first, then
/// the weekly window over all models, then model-scoped weekly windows, each group in array
/// order; the legacy fields only when the array describes none.
pub open spec fn live_windows(data: JsonView) -> Seq<LimitView> {
    let ps = limit_entries(limits_array(data));
    if ps.len() == 0 {
        legacy_windows(data)
    } else {
        at_rank(ps, 0) + at_rank(ps, 1) + at_rank(ps, 2)
    }
}

/// The error message of an error body (`{"error":{...}}`, with or without `"type":"error"`):
/// its `message`, or `Usage unavailable`; `None` when there is no non-null `error`.
pub open spec fn api_error(data: JsonView) -> Option<Seq<char>> {
    match member(Some(data), "error"@) {
        None => None,
        Some(e) => if is_null(e) {
            None
        } else {
            match as_str(member(Some(e), "message"@)) {
                Some(m) => Some(m),
                None => Some("Usage unavailable"@),
            }
        },
    }
}

/// The window that one entry of the `limits` array describes, with its place in the order.
pub fn parse_limit_entry(entry: &Json) -> (r: Option<(u8, ProviderLimit)>)
    ensures
        match r {
            Some(p) => limit_entry(entry@) == Some((p.0 as int, p.1@)),
            None => limit_entry(entry@) is None,
        },
{
    let e = Some(entry.clone_json());
    let utilization = get_number(&get(&e, "percent"));
    let resets_at = get_str(&get(&e, "resets_at"));
    let model = get_str(&get(&get(&get(&e, "scope"), "model"), "display_name"));
    let kind = match get_str(&get(&e, "kind")) {
        Some(k) => chars_of(k.as_str()),
        None => return None,
    };
    if chars_eq_str(&kind, "session") {
        Some(
            (
                0,
                ProviderLimit {
                    id: "five-hour".to_owned(),
                    title: "Current session".to_owned(),
                    utilization,
                    resets_at,
                    window_minutes: Some(300),
                },
            ),
        )
    } else if chars_eq_str(&kind, "weekly_all") {
        Some(
            (
                1,
                ProviderLimit {
                    id: "seven-day".to_owned(),
                    title: "Current week (all models)".to_owned(),
                    utilization,
                    resets_at,
                    window_minutes: Some(10080),
                },
            ),
        )
    } else if chars_eq_str(&kind, "weekly_scoped") {
        match model {
            Some(m) => {
                let slug = window_slug(m.as_str());
                let mut id = chars_of("seven-day-");
                let slug_chars = chars_of(slug.as_str());
                append_chars(&mut id, &slug_chars);
                let mut title = chars_of("Current week (");
                append_str(&mut title, m.as_str());
                append_str(&mut title, " only)");
                Some(
                    (
                        2,
                        ProviderLimit {
                            id: string_of_vec(&id),
                            title: string_of_vec(&title),
                            utilization,
                            resets_at,
                            window_minutes: Some(10080),
                        },
                    ),
                )
            },
            None => None,
        }
    } else {
        None
    }
}

proof fn lemma_at_rank_push(ps: Seq<(int, LimitView)>, p: (int, LimitView), rank: int)
    ensures
        at_rank(ps.push(p), rank) == (if p.0 == rank {
            at_rank(ps, rank).push(p.1)
        } else {
            at_rank(ps, rank)
        }),
{
    assert(ps.push(p).drop_last() == ps);
}

/// A legacy top-level window of the response.
fn parse_legacy_window(
    data: &Json,
    key: &str,
    id: &str,
    title: &str,
    minutes: i64,
    out: &mut Vec<ProviderLimit>,
)
    ensures
        windows_view(final(out)@) == windows_view(old(out)@) + legacy_window(
            data@,
            key@,
            id@,
            title@,
            minutes,
        ),
{
    let d = Some(data.clone_json());
    let value = get(&d, key);
    match &value {
        Some(v) => {
            if !v.null() {
                let w = ProviderLimit {
                    id: id.to_owned(),
                    title: title.to_owned(),
                    utilization: get_number(&get(&value, "utilization")),
                    resets_at: get_str(&get(&value, "resets_at")),
                    window_minutes: Some(minutes),
                };
                let ghost before = out@;
                out.push(w);
                proof {
                    assert(windows_view(out@) =~= windows_view(before) + legacy_window(
                        data@,
                        key@,
                        id@,
                        title@,
                        minutes,
                    ));
                }
            } else {
                proof {
                    assert(windows_view(out@) =~= windows_view(out@) + Seq::<LimitView>::empty());
                }
            }
        },
        None => {
            proof {
                assert(windows_view(out@) =~= windows_view(out@) + Seq::<LimitView>::empty());
            }
        },
    }
}

/// The windows of the legacy top-level fields, `five_hour` then `seven_day`.
pub fn parse_legacy_windows(data: &Json) -> (r: Vec<ProviderLimit>)
    ensures
        windows_view(r@) == legacy_windows(data@),
{
    let mut out: Vec<ProviderLimit> = Vec::new();
    proof {
        assert(windows_view(out@) =~= Seq::<LimitView>::empty());
    }
    parse_legacy_window(data, "five_hour", "five-hour", "Current session", 300, &mut out);
    parse_legacy_window(
        data,
        "seven_day",
        "seven-day",
        "Current week (all models)",
        10080,
        &mut out,
    );
    proof {
        assert(windows_view(out@) =~= legacy_windows(data@));
    }
    out
}

/// The windows of a usage response. The `limits` array is self-describing and preferred, so
/// a model added or retired on the server needs no change here; the legacy top-level fields
/// are read only when the array describes no window.
pub fn parse_live_windows(data: &Json) -> (r: Vec<ProviderLimit>)
    ensures
        windows_view(r@) == live_windows(data@),
{
    let d = Some(data.clone_json());
    let entries: Vec<Json> = match get(&d, "limits") {
        Some(l) => match l.elements() {
            Some(es) => es,
            None => Vec::new(),
        },
        None => Vec::new(),
    };
    let ghost ev = entries@.map_values(|j: Json| j@);
    proof {
        assert(ev == limits_array(data@)) by {
            if as_array(member(Some(data@), "limits"@)) is None {
                assert(ev =~= Seq::<JsonView>::empty());
            }
        }
    }
    let mut sessions: Vec<ProviderLimit> = Vec::new();
    let mut weekly: Vec<ProviderLimit> = Vec::new();
    let mut scoped: Vec<ProviderLimit> = Vec::new();
    let mut any = false;
    let mut i: usize = 0;
    proof {
        assert(ev.take(0) =~= Seq::<JsonView>::empty());
        assert(windows_view(sessions@) =~= Seq::<LimitView>::empty());
        assert(windows_view(weekly@) =~= Seq::<LimitView>::empty());
        assert(windows_view(scoped@) =~= Seq::<LimitView>::empty());
    }
    while i < entries.len()
        invariant
            0 <= i <= entries.len(),
            ev == entries@.map_values(|j: Json| j@),
            windows_view(sessions@) == at_rank(limit_entries(ev.take(i as int)), 0),
            windows_view(weekly@) == at_rank(limit_entries(ev.take(i as int)), 1),
            windows_view(scoped@) == at_rank(limit_entries(ev.take(i as int)), 2),
            any == (limit_entries(ev.take(i as int)).len() > 0),
            forall|k: int|
                0 <= k < limit_entries(ev.take(i as int)).len() ==> 0 <= (#[trigger] limit_entries(
                    ev.take(i as int),
                )[k]).0 <= 2,
        decreases entries.len() - i,
    {
        let parsed = parse_limit_entry(&entries[i]);
        let ghost before = limit_entries(ev.take(i as int));
        proof {
            assert(ev.take(i + 1).drop_last() == ev.take(i as int));
            assert(ev.take(i + 1).last() == entries@[i as int]@);
        }
        match parsed {
            Some((rank, w)) => {
                let ghost p = (rank as int, w@);
                proof {
                    assert(limit_entries(ev.take(i + 1)) == before.push(p));
                    lemma_at_rank_push(before, p, 0);
                    lemma_at_rank_push(before, p, 1);
                    lemma_at_rank_push(before, p, 2);
                }
                let ghost s0 = sessions@;
                let ghost s1 = weekly@;
                let ghost s2 = scoped@;
                if rank == 0 {
                    sessions.push(w);
                    proof {
                        assert(windows_view(sessions@) =~= windows_view(s0).push(p.1));
                    }
                } else if rank == 1 {
                    weekly.push(w);
                    proof {
                        assert(windows_view(weekly@) =~= windows_view(s1).push(p.1));
                    }
                } else {
                    scoped.push(w);
                    proof {
                        assert(windows_view(scoped@) =~= windows_view(s2).push(p.1));
                    }
                }
                any = true;
            },
            None => {
                proof {
                    assert(limit_entries(ev.take(i + 1)) == before);
                }
            },
        }
        i = i + 1;
    }
    proof {
        assert(ev.take(entries.len() as int) == ev);
    }
    if !any {
        return parse_legacy_windows(data);
    }
    let mut out = sessions;
    let ghost s0 = out@;
    out.append(&mut weekly);
    let ghost s1 = out@;
    out.append(&mut scoped);
    proof {
        assert(windows_view(s1) =~= windows_view(s0) + at_rank(limit_entries(ev), 1));
        assert(windows_view(out@) =~= windows_view(s1) + at_rank(limit_entries(ev), 2));
    }
    out
}

/// The message of an error body; `None` when the body carries no non-null `error`.
pub fn api_error_message(data: &Json) -> (r: Option<String>)
    ensures
        opt_text(r) == api_error(data@),
{
    let d = Some(data.clone_json());
    let error = get(&d, "error");
    match &error {
        None => None,
        Some(e) => {
            if e.null() {
                None
            } else {
                match get_str(&get(&error, "message")) {
                    Some(m) => Some(m),
                    None => Some("Usage unavailable".to_owned()),
                }
            }
        },
    }
}

/// The place of a window in the display order, read from its id: the session window, the
/// weekly window over all models, then any other (model-scoped) window.
pub open spec fn place_of(w: LimitView) -> int {
    if w.id == "five-hour"@ {
        0
    } else if w.id == "seven-day"@ {
        1
    } else {
        2
    }
}

proof fn lemma_entry_place(e: JsonView)
    ensures
        limit_entry(e) matches Some(p) ==> 0 <= p.0 <= 2 && place_of(p.1) == p.0,
{
    match limit_entry(e) {
        Some(p) => {
            if p.0 == 1 {
                assert("seven-day"@ != "five-hour"@) by {
                    reveal_strlit("seven-day");
                    reveal_strlit("five-hour");
                    assert("seven-day"@[0] != "five-hour"@[0]);
                }
            }
            if p.0 == 2 {
                let m = as_str(
                    member(member(member(Some(e), "scope"@), "model"@), "display_name"@),
                )->0;
                let id = "seven-day-"@ + slug_of(m);
                assert(id.len() > "seven-day"@.len()) by {
                    reveal_strlit("seven-day-");
                    reveal_strlit("seven-day");
                }
                assert(id.len() != "five-hour"@.len()) by {
                    reveal_strlit("seven-day-");
                    reveal_strlit("five-hour");
                }
            }
        },
        None => {},
    }
}

proof fn lemma_entries_place(es: Seq<JsonView>)
    ensures
        forall|k: int|
            0 <= k < limit_entries(es).len() ==> 0 <= (#[trigger] limit_entries(es)[k]).0 <= 2
                && place_of(limit_entries(es)[k].1) == limit_entries(es)[k].0,
    decreases es.len(),
{
    if es.len() > 0 {
        let rest = es.drop_last();
        lemma_entries_place(rest);
        lemma_entry_place(es.last());
        let r = limit_entries(rest);
        assert forall|k: int| 0 <= k < limit_entries(es).len() implies 0 <= (
        #[trigger] limit_entries(es)[k]).0 <= 2 && place_of(limit_entries(es)[k].1)
            == limit_entries(es)[k].0 by {
            if k < r.len() {
                assert(limit_entries(es)[k] == r[k]);
            }
        }
    }
}

proof fn lemma_at_rank_place(ps: Seq<(int, LimitView)>, rank: int)
    requires
        forall|k: int| 0 <= k < ps.len() ==> place_of((#[trigger] ps[k]).1) == ps[k].0,
    ensures
        forall|i: int| 0 <= i < at_rank(ps, rank).len() ==> place_of(#[trigger] at_rank(ps, rank)[i]) == rank,
    decreases ps.len(),
{
    if ps.len() > 0 {
        let rest = ps.drop_last();
        assert forall|k: int| 0 <= k < rest.len() implies place_of((#[trigger] rest[k]).1) == rest[k].0 by {
            assert(rest[k] == ps[k]);
        }
        lemma_at_rank_place(rest, rank);
        assert(ps.last() == ps[ps.len() - 1]);
        let r = at_rank(rest, rank);
        assert forall|i: int| 0 <= i < at_rank(ps, rank).len() implies place_of(
            #[trigger] at_rank(ps, rank)[i],
        ) == rank by {
            if i < r.len() {
                assert(at_rank(ps, rank)[i] == r[i]);
            }
        }
    }
}

/// Whatever the order of the `limits` array, the windows it describes come session first,
/// then the weekly window over all models, then the model-scoped weekly windows.
pub proof fn law_window_order_ignores_array_order(data: JsonView)
    requires
        limit_entries(limits_array(data)).len() > 0,
    ensures
        forall|i: int, j: int|
            0 <= i < j < live_windows(data).len() ==> place_of(#[trigger] live_windows(data)[i])
                <= place_of(#[trigger] live_windows(data)[j]),
{
    let ps = limit_entries(limits_array(data));
    lemma_entries_place(limits_array(data));
    lemma_at_rank_place(ps, 0);
    lemma_at_rank_place(ps, 1);
    lemma_at_rank_place(ps, 2);
    let a = at_rank(ps, 0);
    let b = at_rank(ps, 1);
    let c = at_rank(ps, 2);
    let all = a + b + c;
    assert(live_windows(data) == all);
    assert forall|i: int| 0 <= i < all.len() implies place_of(#[trigger] all[i]) == (if i < a.len() {
        0int
    } else if i < a.len() + b.len() {
        1int
    } else {
        2int
    }) by {
        if i < a.len() {
            assert(all[i] == a[i]);
        } else if i < a.len() + b.len() {
            assert(all[i] == b[i - a.len()]);
        } else {
            assert(all[i] == c[i - a.len() - b.len()]);
        }
    }
}

} // verus!
