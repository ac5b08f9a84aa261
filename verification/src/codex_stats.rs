//! Codex usage statistics: per-file summaries of the local session logs, their combination,
//! and the card that joins them with the account usage that the app-server reports.
use vstd::prelude::*;
use crate::claude_stats::{add_all, add_counts, cut_date, cut_inside_char, last14, ts_date};
use crate::codex_limits::Fetched;
use crate::json::{
    as_array, as_i64, as_str, get, get_i64, get_str, member, read, read_json, texts_view, Json,
    JsonView,
};
use crate::providers::{
    opt_text, points_view, rows_view, ActivityPoint, BreakdownRow, ProviderId, ProviderStats,
    StatsView, SummaryMetric,
};
use crate::sorting::{
    lemma_text_le_refl, lemma_text_le_total, lemma_text_le_trans, sort_by_key, sort_by_value_desc,
    stable_key_order, value_sorted_desc,
};
use crate::tally::{
    add_count, add_to, day_counts, day_of, put_value, tally_view, upsert, value_of, DayCounts,
};
use crate::text::{
    append_str, chars_le, chars_of, signed_decimal, signed_decimal_chars, string_of_vec,
    take_chars, text_le,
};
use crate::timestamps::{date_from_secs, day_text};

verus! {

/// The summary of one session log, kept with the file's time and length so that an unchanged
/// file is not read again.
#[derive(Debug)]
pub struct SessionSummary {
    pub modified_secs: u64,
    pub length: u64,
    /// Prompts, sessions and tool calls per date.
    pub daily: Vec<(String, DayCounts)>,
    /// Output tokens per model.
    pub model_tokens: Vec<(String, i64)>,
}

/// The mathematical form of a `SessionSummary`.
pub struct SummaryView {
    pub modified_secs: u64,
    pub length: u64,
    pub daily: Seq<(Seq<char>, DayCounts)>,
    pub model_tokens: Seq<(Seq<char>, i64)>,
}

impl View for SessionSummary {
    type V = SummaryView;

    open spec fn view(&self) -> SummaryView {
        SummaryView {
            modified_secs: self.modified_secs,
            length: self.length,
            daily: tally_view(self.daily@),
            model_tokens: tally_view(self.model_tokens@),
        }
    }
}

/// Where the scan of a log stands.
pub struct ScanState {
    pub daily: Seq<(Seq<char>, DayCounts)>,
    pub models: Seq<(Seq<char>, i64)>,
    /// The model of the latest turn (`unknown` before any).
    pub model: Seq<char>,
    /// The session was counted from its `session_meta` line.
    pub counted: bool,
    /// The date of the first line that has one, once one has.
    pub first_date: Option<Seq<char>>,
}

/// Before the first line.
pub open spec fn scan_start() -> ScanState {
    ScanState {
        daily: Seq::empty(),
        models: Seq::empty(),
        model: "unknown"@,
        counted: false,
        first_date: None,
    }
}

/// One more of a day's counts.
pub open spec fn bump_day(daily: Seq<(Seq<char>, DayCounts)>, date: Seq<char>, which: int) -> Seq<
    (Seq<char>, DayCounts),
> {
    let cur = day_of(daily, date);
    upsert(
        daily,
        date,
        if which == 0 {
            DayCounts { messages: cur.messages.wrapping_add(1), ..cur }
        } else if which == 1 {
            DayCounts { sessions: cur.sessions.wrapping_add(1), ..cur }
        } else {
            DayCounts { tools: cur.tools.wrapping_add(1), ..cur }
        },
    )
}

/// What the scan reads of a log line: its timestamp and type, and the payload's type, role,
/// model and the output tokens of its last token usage. Nothing else of a line is kept.
pub struct LogLine {
    pub timestamp: Option<Seq<char>>,
    pub kind: Option<Seq<char>>,
    pub item: Option<Seq<char>>,
    pub role: Option<Seq<char>>,
    pub model: Option<Seq<char>>,
    pub output: Option<i64>,
}

/// The fields the scan reads of a line, `None` when the line is not JSON.
pub open spec fn log_line(line: Seq<char>) -> Option<LogLine> {
    match read(line) {
        None => None,
        Some(v) => {
            let payload = member(Some(v), "payload"@);
            Some(
                LogLine {
                    timestamp: as_str(member(Some(v), "timestamp"@)),
                    kind: as_str(member(Some(v), "type"@)),
                    item: as_str(member(payload, "type"@)),
                    role: as_str(member(payload, "role"@)),
                    model: as_str(member(payload, "model"@)),
                    output: as_i64(
                        member(member(member(payload, "info"@), "last_token_usage"@), "output_tokens"@),
                    ),
                },
            )
        },
    }
}

/// A line the scan skips as malformed: it is not JSON, or the date of its timestamp would end
/// inside a character (as a half-written line can).
pub open spec fn skipped_line(line: Seq<char>) -> bool {
    match log_line(line) {
        None => true,
        Some(l) => match l.timestamp {
            Some(ts) => cut_inside_char(ts),
            None => false,
        },
    }
}

/// The date of a log line: the first ten bytes of its timestamp.
pub open spec fn log_date(l: LogLine) -> Option<Seq<char>> {
    match l.timestamp {
        Some(ts) => ts_date(ts),
        None => None,
    }
}

/// The scan after a line that is not skipped: the first dated line fixes the fallback date;
/// the first `session_meta` line with a date counts the session; a `turn_context` line names
/// the model of what follows; a user message counts a prompt and a function, custom tool or
/// web search call counts a tool call on the line's date; a `token_count` event adds its
/// output tokens to the current model.
pub open spec fn step_of(st: ScanState, l: LogLine) -> ScanState {
    let date = log_date(l);
    let st1 = if st.first_date is None && date is Some {
        ScanState { first_date: date, ..st }
    } else {
        st
    };
    if l.kind == Some("session_meta"@) && !st1.counted {
        match date {
            Some(d) => ScanState { daily: bump_day(st1.daily, d, 1), counted: true, ..st1 },
            None => st1,
        }
    } else if l.kind == Some("turn_context"@) {
        match l.model {
            Some(m) => ScanState { model: m, ..st1 },
            None => st1,
        }
    } else if l.kind == Some("response_item"@) {
        match date {
            Some(d) => if l.item == Some("message"@) && l.role == Some("user"@) {
                ScanState { daily: bump_day(st1.daily, d, 0), ..st1 }
            } else if l.item == Some("function_call"@) || l.item == Some("custom_tool_call"@)
                || l.item == Some("web_search_call"@) {
                ScanState { daily: bump_day(st1.daily, d, 2), ..st1 }
            } else {
                st1
            },
            None => st1,
        }
    } else if l.kind == Some("event_msg"@) && l.item == Some("token_count"@) {
        let out = match l.output {
            Some(o) => o,
            None => 0,
        };
        if out > 0 {
            ScanState { models: add_count(st1.models, st1.model, out), ..st1 }
        } else {
            st1
        }
    } else {
        st1
    }
}

/// The scan after one more line.
pub open spec fn scan_step(st: ScanState, line: Seq<char>) -> ScanState {
    match log_line(line) {
        Some(l) => if skipped_line(line) {
            st
        } else {
            step_of(st, l)
        },
        None => st,
    }
}

/// The scan from `st` on, after the lines in order.
pub open spec fn scan_from(st: ScanState, lines: Seq<Seq<char>>) -> ScanState
    decreases lines.len(),
{
    if lines.len() == 0 {
        st
    } else {
        scan_step(scan_from(st, lines.drop_last()), lines.last())
    }
}

/// The scan of a whole log.
pub open spec fn scan_lines(lines: Seq<Seq<char>>) -> ScanState {
    scan_from(scan_start(), lines)
}

/// The summary of a log's lines: when no dated `session_meta` line counted the session, it is
/// counted on the date of the log's first dated line, if any.
pub open spec fn summary_of(lines: Seq<Seq<char>>, modified_secs: u64, length: u64) -> SummaryView {
    let st = scan_lines(lines);
    SummaryView {
        modified_secs,
        length,
        daily: match st.first_date {
            Some(d) => if !st.counted {
                bump_day(st.daily, d, 1)
            } else {
                st.daily
            },
            None => st.daily,
        },
        model_tokens: st.models,
    }
}

/// The texts of the lines.
pub open spec fn lines_view(lines: Seq<String>) -> Seq<Seq<char>> {
    lines.map_values(|l: String| l@)
}

/// The exec form of the scan state.
struct Scan {
    daily: Vec<(String, DayCounts)>,
    models: Vec<(String, i64)>,
    model: String,
    counted: bool,
    first_date: Option<String>,
}

spec fn scan_view(s: Scan) -> ScanState {
    ScanState {
        daily: tally_view(s.daily@),
        models: tally_view(s.models@),
        model: s.model@,
        counted: s.counted,
        first_date: opt_text(s.first_date),
    }
}

/// Counts one more of a day's counts.
fn bump(daily: &mut Vec<(String, DayCounts)>, date: &String, which: u8)
    requires
        which <= 2,
    ensures
        tally_view(final(daily)@) == bump_day(tally_view(old(daily)@), date@, which as int),
{
    let cur = day_counts(daily, date);
    let next = if which == 0 {
        DayCounts { messages: cur.messages.wrapping_add(1), ..cur }
    } else if which == 1 {
        DayCounts { sessions: cur.sessions.wrapping_add(1), ..cur }
    } else {
        DayCounts { tools: cur.tools.wrapping_add(1), ..cur }
    };
    put_value(daily, date.clone(), next);
}

fn text_is(o: &Option<String>, s: &str) -> (r: bool)
    ensures
        r == (match o {
            Some(t) => t@ == s@,
            None => false,
        }),
{
    match o {
        Some(t) => crate::text::chars_eq_str(&chars_of(t.as_str()), s),
        None => false,
    }
}

/// One line of the scan.
fn step(st: &mut Scan, line: &str)
    ensures
        scan_view(*final(st)) == scan_step(scan_view(*old(st)), line@),
{
    let v = read_json(line);
    if v.is_none() {
        return;
    }
    let ghost l = log_line(line@)->0;
    let date = match get_str(&get(&v, "timestamp")) {
        Some(ts) => match cut_date(ts.as_str()) {
            Some(d) => d,
            None => {
                return;
            },
        },
        None => None,
    };
    proof {
        assert(!skipped_line(line@));
        assert(match date {
            Some(d) => log_date(l) == Some(d@),
            None => log_date(l) is None,
        });
    }
    let ghost s0 = scan_view(*old(st));
    if st.first_date.is_none() {
        match &date {
            Some(d) => {
                st.first_date = Some(d.clone());
            },
            None => {},
        }
    }
    let ghost s1 = if s0.first_date is None && log_date(l) is Some {
        ScanState { first_date: log_date(l), ..s0 }
    } else {
        s0
    };
    assert(scan_view(*st) == s1);
    let kind = get_str(&get(&v, "type"));
    let payload = get(&v, "payload");
    let item = get_str(&get(&payload, "type"));
    if text_is(&kind, "session_meta") && !st.counted {
        match &date {
            Some(d) => {
                bump(&mut st.daily, d, 1);
                st.counted = true;
            },
            None => {},
        }
    } else if text_is(&kind, "turn_context") {
        match get_str(&get(&payload, "model")) {
            Some(m) => {
                st.model = m;
            },
            None => {},
        }
    } else if text_is(&kind, "response_item") {
        match &date {
            Some(d) => {
                if text_is(&item, "message") && text_is(&get_str(&get(&payload, "role")), "user") {
                    bump(&mut st.daily, d, 0);
                } else if text_is(&item, "function_call") || text_is(&item, "custom_tool_call")
                    || text_is(&item, "web_search_call") {
                    bump(&mut st.daily, d, 2);
                }
            },
            None => {},
        }
    } else if text_is(&kind, "event_msg") && text_is(&item, "token_count") {
        let out = match get_i64(
            &get(&get(&get(&payload, "info"), "last_token_usage"), "output_tokens"),
        ) {
            Some(o) => o,
            None => 0,
        };
        if out > 0 {
            add_to(&mut st.models, st.model.clone(), out);
        }
    }
}

/// The summary of a session log, from its lines (read up to the first that is not UTF-8),
/// its modification time and its length. Malformed lines are skipped.
pub fn summarize_session(lines: &Vec<String>, modified_secs: u64, length: u64) -> (r: SessionSummary)
    ensures
        r@ == summary_of(lines_view(lines@), modified_secs, length),
{
    let ghost lv = lines_view(lines@);
    let mut st = Scan {
        daily: Vec::new(),
        models: Vec::new(),
        model: "unknown".to_owned(),
        counted: false,
        first_date: None,
    };
    proof {
        assert(scan_view(st).daily =~= scan_start().daily);
        assert(scan_view(st).models =~= scan_start().models);
        assert(lv.take(0) =~= Seq::<Seq<char>>::empty());
    }
    let mut i: usize = 0;
    while i < lines.len()
        invariant
            0 <= i <= lines.len(),
            lv == lines_view(lines@),
            scan_view(st) == scan_lines(lv.take(i as int)),
        decreases lines.len() - i,
    {
        proof {
            assert(lv.take(i + 1).drop_last() == lv.take(i as int));
            assert(lv.take(i + 1).last() == lines@[i as int]@);
        }
        step(&mut st, lines[i].as_str());
        i = i + 1;
    }
    proof {
        assert(lv.take(lines.len() as int) == lv);
    }
    if !st.counted {
        match &st.first_date {
            Some(d) => {
                let d2 = d.clone();
                bump(&mut st.daily, &d2, 1);
            },
            _ => {},
        }
    }
    SessionSummary { modified_secs, length, daily: st.daily, model_tokens: st.models }
}

/// A cached summary stands for the file when the file's time and length are unchanged.
pub fn summary_is_current(summary: &SessionSummary, modified_secs: u64, length: u64) -> (r: bool)
    ensures
        r == (summary.modified_secs == modified_secs && summary.length == length),
{
    summary.modified_secs == modified_secs && summary.length == length
}

/// The counts of the local session logs, combined.
#[derive(Debug)]
pub struct LocalStats {
    pub daily: Vec<(String, DayCounts)>,
    pub model_tokens: Vec<(String, i64)>,
    /// Sessions over all days.
    pub session_count: i64,
    /// The earliest date with any count.
    pub since: Option<String>,
}

/// The mathematical form of `LocalStats`.
pub struct LocalView {
    pub daily: Seq<(Seq<char>, DayCounts)>,
    pub model_tokens: Seq<(Seq<char>, i64)>,
    pub session_count: i64,
    pub since: Option<Seq<char>>,
}

impl View for LocalStats {
    type V = LocalView;

    open spec fn view(&self) -> LocalView {
        LocalView {
            daily: tally_view(self.daily@),
            model_tokens: tally_view(self.model_tokens@),
            session_count: self.session_count,
            since: opt_text(self.since),
        }
    }
}

/// The days with another file's days added, count by count.
pub open spec fn merge_days(daily: Seq<(Seq<char>, DayCounts)>, add: Seq<(Seq<char>, DayCounts)>) -> Seq<
    (Seq<char>, DayCounts),
>
    decreases add.len(),
{
    if add.len() == 0 {
        daily
    } else {
        let prev = merge_days(daily, add.drop_last());
        let cur = day_of(prev, add.last().0);
        let v = add.last().1;
        upsert(
            prev,
            add.last().0,
            DayCounts {
                messages: cur.messages.wrapping_add(v.messages),
                sessions: cur.sessions.wrapping_add(v.sessions),
                tools: cur.tools.wrapping_add(v.tools),
            },
        )
    }
}

/// The days of all the summaries.
pub open spec fn all_days(sums: Seq<SummaryView>) -> Seq<(Seq<char>, DayCounts)>
    decreases sums.len(),
{
    if sums.len() == 0 {
        Seq::empty()
    } else {
        merge_days(all_days(sums.drop_last()), sums.last().daily)
    }
}

/// The output tokens per model of all the summaries.
pub open spec fn all_models(sums: Seq<SummaryView>) -> Seq<(Seq<char>, i64)>
    decreases sums.len(),
{
    if sums.len() == 0 {
        Seq::empty()
    } else {
        add_counts(all_models(sums.drop_last()), sums.last().model_tokens)
    }
}

/// The sessions of all the days.
pub open spec fn session_total(daily: Seq<(Seq<char>, DayCounts)>) -> i64
    decreases daily.len(),
{
    if daily.len() == 0 {
        0
    } else {
        session_total(daily.drop_last()).wrapping_add(daily.last().1.sessions)
    }
}

/// `since` is the earliest date of `daily`, `None` when there is none.
pub open spec fn earliest(daily: Seq<(Seq<char>, DayCounts)>, since: Option<Seq<char>>) -> bool {
    match since {
        None => daily.len() == 0,
        Some(k) => (exists|i: int| 0 <= i < daily.len() && #[trigger] daily[i].0 == k) && forall|j: int|
            0 <= j < daily.len() ==> text_le(k, #[trigger] daily[j].0),
    }
}

/// The views of the summaries.
pub open spec fn summaries_view(sums: Seq<SessionSummary>) -> Seq<SummaryView> {
    sums.map_values(|s: SessionSummary| s@)
}

/// Adds another file's days.
fn merge_into(daily: &mut Vec<(String, DayCounts)>, add: &Vec<(String, DayCounts)>)
    ensures
        tally_view(final(daily)@) == merge_days(tally_view(old(daily)@), tally_view(add@)),
{
    let ghost start = tally_view(daily@);
    let ghost av = tally_view(add@);
    let mut i: usize = 0;
    proof {
        assert(av.take(0) =~= Seq::<(Seq<char>, DayCounts)>::empty());
    }
    while i < add.len()
        invariant
            0 <= i <= add.len(),
            av == tally_view(add@),
            tally_view(daily@) == merge_days(start, av.take(i as int)),
        decreases add.len() - i,
    {
        proof {
            assert(av.take(i + 1).drop_last() == av.take(i as int));
            assert(av.take(i + 1).last() == (add@[i as int].0@, add@[i as int].1));
        }
        let cur = day_counts(daily, &add[i].0);
        let v = add[i].1;
        put_value(
            daily,
            add[i].0.clone(),
            DayCounts {
                messages: cur.messages.wrapping_add(v.messages),
                sessions: cur.sessions.wrapping_add(v.sessions),
                tools: cur.tools.wrapping_add(v.tools),
            },
        );
        i = i + 1;
    }
    proof {
        assert(av.take(add.len() as int) == av);
    }
}

/// The local statistics of the session logs' summaries.
pub fn combine_sessions(summaries: &Vec<SessionSummary>) -> (r: LocalStats)
    ensures
        r@.daily == all_days(summaries_view(summaries@)),
        r@.model_tokens == all_models(summaries_view(summaries@)),
        r@.session_count == session_total(r@.daily),
        earliest(r@.daily, r@.since),
{
    let ghost sv = summaries_view(summaries@);
    let mut daily: Vec<(String, DayCounts)> = Vec::new();
    let mut models: Vec<(String, i64)> = Vec::new();
    let mut i: usize = 0;
    proof {
        assert(sv.take(0) =~= Seq::<SummaryView>::empty());
        assert(tally_view(daily@) =~= Seq::<(Seq<char>, DayCounts)>::empty());
        assert(tally_view(models@) =~= Seq::<(Seq<char>, i64)>::empty());
    }
    while i < summaries.len()
        invariant
            0 <= i <= summaries.len(),
            sv == summaries_view(summaries@),
            tally_view(daily@) == all_days(sv.take(i as int)),
            tally_view(models@) == all_models(sv.take(i as int)),
        decreases summaries.len() - i,
    {
        proof {
            assert(sv.take(i + 1).drop_last() == sv.take(i as int));
            assert(sv.take(i + 1).last() == summaries@[i as int]@);
        }
        merge_into(&mut daily, &summaries[i].daily);
        add_all(&mut models, &summaries[i].model_tokens);
        i = i + 1;
    }
    proof {
        assert(sv.take(summaries.len() as int) == sv);
    }
    let ghost dv = tally_view(daily@);
    let mut count: i64 = 0;
    let mut since: Option<String> = None;
    let mut j: usize = 0;
    proof {
        assert(dv.take(0) =~= Seq::<(Seq<char>, DayCounts)>::empty());
    }
    while j < daily.len()
        invariant
            0 <= j <= daily.len(),
            dv == tally_view(daily@),
            count == session_total(dv.take(j as int)),
            earliest(dv.take(j as int), opt_text(since)),
        decreases daily.len() - j,
    {
        proof {
            assert(dv.take(j + 1).drop_last() == dv.take(j as int));
            assert(dv.take(j + 1).last() == dv[j as int]);
            assert(dv[j as int] == (daily@[j as int].0@, daily@[j as int].1));
        }
        count = count.wrapping_add(daily[j].1.sessions);
        let ghost before = opt_text(since);
        let key = chars_of(daily[j].0.as_str());
        let replace = match &since {
            None => true,
            Some(k) => !chars_le(&chars_of(k.as_str()), &key),
        };
        if replace {
            since = Some(daily[j].0.clone());
        }
        proof {
            let t = dv.take(j + 1);
            assert forall|q: int| 0 <= q < j implies #[trigger] t[q] == dv.take(j as int)[q] by {}
            match opt_text(since) {
                Some(k) => {
                    if replace {
                        assert(t[j as int].0 == k);
                        match before {
                            Some(b) => {
                                lemma_text_le_total(b, key@);
                                assert forall|q: int| 0 <= q < t.len() implies text_le(
                                    k,
                                    #[trigger] t[q].0,
                                ) by {
                                    if q < j {
                                        assert(text_le(b, dv.take(j as int)[q].0));
                                        lemma_text_le_trans(k, b, t[q].0);
                                    } else {
                                        lemma_text_le_refl(k);
                                    }
                                }
                            },
                            None => {
                                assert forall|q: int| 0 <= q < t.len() implies text_le(
                                    k,
                                    #[trigger] t[q].0,
                                ) by {
                                    lemma_text_le_refl(k);
                                }
                            },
                        }
                    } else {
                        let w = choose|w: int|
                            0 <= w < dv.take(j as int).len() && #[trigger] dv.take(j as int)[w].0
                                == k;
                        assert(t[w].0 == k);
                        assert forall|q: int| 0 <= q < t.len() implies text_le(
                            k,
                            #[trigger] t[q].0,
                        ) by {
                            if q < j {
                                assert(text_le(k, dv.take(j as int)[q].0));
                            }
                        }
                    }
                },
                None => {},
            }
        }
        j = j + 1;
    }
    proof {
        assert(dv.take(daily.len() as int) == dv);
    }
    LocalStats { daily, model_tokens: models, session_count: count, since }
}

/// A chart point of an account usage bucket: the first ten characters of `startDate` and the
/// `tokens`, when both are there.
pub open spec fn bucket_point(b: JsonView) -> Option<(Seq<char>, i64)> {
    match (as_str(member(Some(b), "startDate"@)), as_i64(member(Some(b), "tokens"@))) {
        (Some(d), Some(t)) => Some((d.take(if d.len() < 10 { d.len() as int } else { 10 }), t)),
        _ => None,
    }
}

/// The chart points of the buckets that have both.
pub open spec fn bucket_points(items: Seq<JsonView>) -> Seq<(Seq<char>, i64)>
    decreases items.len(),
{
    if items.len() == 0 {
        Seq::empty()
    } else {
        let prev = bucket_points(items.drop_last());
        match bucket_point(items.last()) {
            Some(p) => prev.push(p),
            None => prev,
        }
    }
}

/// The chart points of the account usage's `dailyUsageBuckets`.
pub open spec fn buckets_of(value: JsonView) -> Seq<(Seq<char>, i64)> {
    bucket_points(
        match as_array(member(Some(value), "dailyUsageBuckets"@)) {
            Some(items) => items,
            None => Seq::empty(),
        },
    )
}

/// `shown` is the last fourteen of `rows` ordered by date (rows of one date in their order).
pub open spec fn recent_by_date(rows: Seq<(Seq<char>, i64)>, shown: Seq<(Seq<char>, i64)>) -> bool {
    exists|sorted: Seq<(Seq<char>, i64)>, idx: Seq<int>|
        #[trigger] stable_key_order(sorted, rows, idx) && shown == last14(sorted)
}

/// The last fourteen points of `rows` by date.
fn recent_points(rows: &Vec<(String, i64)>) -> (r: Vec<ActivityPoint>)
    ensures
        recent_by_date(tally_view(rows@), points_view(r@)),
{
    let sorted = sort_by_key(rows);
    let ghost sv = tally_view(sorted@);
    let start: usize = if sorted.len() > 14 { sorted.len() - 14 } else { 0 };
    let mut out: Vec<ActivityPoint> = Vec::new();
    let mut j: usize = start;
    while j < sorted.len()
        invariant
            start <= j <= sorted.len(),
            sv == tally_view(sorted@),
            out@.len() == j - start,
            points_view(out@) == sv.subrange(start as int, j as int),
        decreases sorted.len() - j,
    {
        let ghost prev = points_view(out@);
        out.push(ActivityPoint { date: sorted[j].0.clone(), value: sorted[j].1 });
        proof {
            assert forall|q: int| 0 <= q < j - start implies #[trigger] points_view(out@)[q]
                == sv.subrange(start as int, j + 1)[q] by {
                assert(prev[q] == sv.subrange(start as int, j as int)[q]);
            }
            assert(sv[j as int] == (sorted@[j as int].0@, sorted@[j as int].1));
            assert(points_view(out@) =~= sv.subrange(start as int, j + 1));
        }
        j = j + 1;
    }
    proof {
        assert(sv.subrange(start as int, sorted.len() as int) =~= last14(sv));
        let idx = choose|idx: Seq<int>| stable_key_order(sv, tally_view(rows@), idx);
        assert(stable_key_order(sv, tally_view(rows@), idx) && points_view(out@) == last14(sv));
    }
    out
}

/// The account usage's chart: the last fourteen buckets by date.
pub fn daily_buckets(value: &Json) -> (r: Vec<ActivityPoint>)
    ensures
        recent_by_date(buckets_of(value@), points_view(r@)),
{
    let v = Some(value.clone_json());
    let items: Vec<Json> = match get(&v, "dailyUsageBuckets") {
        Some(a) => match a.elements() {
            Some(items) => items,
            None => Vec::new(),
        },
        None => Vec::new(),
    };
    let ghost iv = items@.map_values(|j: Json| j@);
    proof {
        assert(iv == (match as_array(member(Some(value@), "dailyUsageBuckets"@)) {
            Some(items) => items,
            None => Seq::empty(),
        })) by {
            if as_array(member(Some(value@), "dailyUsageBuckets"@)) is None {
                assert(iv =~= Seq::<JsonView>::empty());
            }
        }
    }
    let mut rows: Vec<(String, i64)> = Vec::new();
    let mut i: usize = 0;
    proof {
        assert(iv.take(0) =~= Seq::<JsonView>::empty());
        assert(tally_view(rows@) =~= Seq::<(Seq<char>, i64)>::empty());
    }
    while i < items.len()
        invariant
            0 <= i <= items.len(),
            iv == items@.map_values(|j: Json| j@),
            tally_view(rows@) == bucket_points(iv.take(i as int)),
        decreases items.len() - i,
    {
        proof {
            assert(iv.take(i + 1).drop_last() == iv.take(i as int));
            assert(iv.take(i + 1).last() == items@[i as int]@);
        }
        let b = Some(items[i].clone_json());
        match (get_str(&get(&b, "startDate")), get_i64(&get(&b, "tokens"))) {
            (Some(d), Some(t)) => {
                let date = string_of_vec(&take_chars(&chars_of(d.as_str()), 10));
                let ghost before = tally_view(rows@);
                rows.push((date, t));
                proof {
                    assert(tally_view(rows@) =~= before.push((date@, t)));
                }
            },
            _ => {},
        }
        i = i + 1;
    }
    proof {
        assert(iv.take(items.len() as int) == iv);
    }
    recent_points(&rows)
}

/// The account's lifetime tokens (`summary.lifetimeTokens`).
pub open spec fn lifetime_of(value: JsonView) -> Option<i64> {
    as_i64(member(member(Some(value), "summary"@), "lifetimeTokens"@))
}

/// The account's current streak in days (`summary.currentStreakDays`).
pub open spec fn streak_of(value: JsonView) -> Option<i64> {
    as_i64(member(member(Some(value), "summary"@), "currentStreakDays"@))
}

/// The value of the first point on `date`.
pub open spec fn first_on(points: Seq<(Seq<char>, i64)>, date: Seq<char>) -> Option<i64>
    decreases points.len(),
{
    if points.len() == 0 {
        None
    } else if points[0].0 == date {
        Some(points[0].1)
    } else {
        first_on(points.drop_first(), date)
    }
}

/// Local statistics when the logs could not be read.
pub open spec fn no_local() -> LocalView {
    LocalView { daily: Seq::empty(), model_tokens: Seq::empty(), session_count: 0, since: None }
}

/// Each day's prompts.
pub open spec fn prompt_rows(daily: Seq<(Seq<char>, DayCounts)>) -> Seq<(Seq<char>, i64)> {
    daily.map_values(|p: (Seq<char>, DayCounts)| (p.0, p.1.messages))
}

/// The footer: with account usage its lifetime tokens (in the compact form given) and its
/// streak when it reports them; then the local sessions.
pub open spec fn codex_footer(
    account: Option<JsonView>,
    lifetime_text: Option<Seq<char>>,
    sessions: i64,
) -> Seq<Seq<char>> {
    (match account {
        Some(v) => (match (lifetime_of(v), lifetime_text) {
            (Some(_), Some(t)) => seq![t + " lifetime tokens"@],
            _ => Seq::empty(),
        }) + (match streak_of(v) {
            Some(s) => seq![signed_decimal(s as int) + "-day streak"@],
            None => Seq::empty(),
        }),
        None => Seq::empty(),
    }) + seq![signed_decimal(sessions as int) + " local sessions"@]
}

/// The Codex card: the account usage (when the app-server answered, live or from its cache)
/// joined with the local session logs; an error only when neither is available. With account
/// usage today's tokens and the account's chart are shown, else today's prompts and the logs'
/// chart; sessions, tool calls and the per-model breakdown come from the logs.
pub open spec fn codex_stats_hold(
    r: Result<StatsView, Seq<char>>,
    account: Result<(JsonView, bool), Seq<char>>,
    local: Result<LocalView, Seq<char>>,
    lifetime_text: Option<Seq<char>>,
    now_secs: int,
) -> bool {
    if account is Err && local is Err {
        r == Err::<StatsView, Seq<char>>("Codex account and local session usage are unavailable"@)
    } else {
        let lv = match local {
            Ok(l) => l,
            Err(_) => no_local(),
        };
        let today = day_text(now_secs / 86400);
        let counts = day_of(lv.daily, today);
        &&& r matches Ok(st)
        &&& st.provider == ProviderId::Codex
        &&& match account {
            Ok((v, stale)) => {
                &&& exists|b: Seq<(Seq<char>, i64)>|
                    #[trigger] recent_by_date(buckets_of(v), b) && st.metrics[0] == (
                        "Tokens"@,
                        match first_on(b, today) {
                            Some(t) => t,
                            None => 0,
                        },
                    ) && (b.len() > 0 ==> st.daily14 == b) && (b.len() == 0 ==> recent_by_date(
                        prompt_rows(lv.daily),
                        st.daily14,
                    ))
                &&& st.activity_label == "14-Day Token Activity"@
                &&& st.data_scope == Some(
                    if stale {
                        "Cached account usage + local sessions"@
                    } else {
                        "Account usage + local sessions"@
                    },
                )
                &&& st.footer == codex_footer(Some(v), lifetime_text, lv.session_count)
            },
            Err(_) => {
                &&& st.metrics[0] == ("Prompts"@, counts.messages)
                &&& recent_by_date(prompt_rows(lv.daily), st.daily14)
                &&& st.activity_label == "14-Day Prompt Activity"@
                &&& st.data_scope == Some("Local sessions only"@)
                &&& st.footer == codex_footer(None, lifetime_text, lv.session_count)
            },
        }
        &&& st.metrics.len() == 3
        &&& st.metrics[1] == ("Sessions"@, counts.sessions)
        &&& st.metrics[2] == ("Tools"@, counts.tools)
        &&& st.breakdown_label == "Output Tokens by Model"@
        &&& value_sorted_desc(st.breakdown)
        &&& st.breakdown.to_multiset() == lv.model_tokens.to_multiset()
        &&& st.since == lv.since
        &&& st.last_updated == today
    }
}

/// The lifetime tokens that the account usage reports, if it does.
pub fn lifetime_tokens(value: &Json) -> (r: Option<i64>)
    ensures
        r == lifetime_of(value@),
{
    let v = Some(value.clone_json());
    get_i64(&get(&get(&v, "summary"), "lifetimeTokens"))
}

/// The value of the first point on `date`.
fn value_on(points: &Vec<ActivityPoint>, date: &String) -> (r: Option<i64>)
    ensures
        r == first_on(points_view(points@), date@),
{
    let ghost pv = points_view(points@);
    let mut i: usize = 0;
    proof {
        assert(pv.skip(0) == pv);
    }
    while i < points.len()
        invariant
            0 <= i <= points.len(),
            pv == points_view(points@),
            first_on(pv, date@) == first_on(pv.skip(i as int), date@),
        decreases points.len() - i,
    {
        proof {
            assert(pv.skip(i as int)[0] == pv[i as int]);
            assert(pv.skip(i as int).drop_first() == pv.skip(i + 1));
            assert(pv[i as int] == (points@[i as int].date@, points@[i as int].value));
        }
        if points[i].date == *date {
            return Some(points[i].value);
        }
        i = i + 1;
    }
    proof {
        assert(pv.skip(i as int).len() == 0);
    }
    None
}

/// Each day's prompts, as rows.
fn prompts(daily: &Vec<(String, DayCounts)>) -> (r: Vec<(String, i64)>)
    ensures
        tally_view(r@) == prompt_rows(tally_view(daily@)),
{
    let ghost dv = tally_view(daily@);
    let mut rows: Vec<(String, i64)> = Vec::new();
    let mut i: usize = 0;
    while i < daily.len()
        invariant
            0 <= i <= daily.len(),
            dv == tally_view(daily@),
            rows@.len() == i,
            tally_view(rows@) == prompt_rows(dv).take(i as int),
        decreases daily.len() - i,
    {
        let ghost prev = tally_view(rows@);
        rows.push((daily[i].0.clone(), daily[i].1.messages));
        proof {
            assert forall|q: int| 0 <= q < i implies #[trigger] tally_view(rows@)[q] == prompt_rows(
                dv,
            ).take(i + 1)[q] by {
                assert(prev[q] == prompt_rows(dv).take(i as int)[q]);
            }
            assert(tally_view(rows@) =~= prompt_rows(dv).take(i + 1));
        }
        i = i + 1;
    }
    proof {
        assert(prompt_rows(dv).take(daily.len() as int) =~= prompt_rows(dv));
    }
    rows
}

/// The view of an account answer, as the card uses it.
pub open spec fn account_view(a: Result<Fetched, String>) -> Result<(JsonView, bool), Seq<char>> {
    match a {
        Ok(f) => Ok((f.value@, f.stale)),
        Err(e) => Err(e@),
    }
}

/// The view of the local statistics' result.
pub open spec fn local_view(l: Result<LocalStats, String>) -> Result<LocalView, Seq<char>> {
    match l {
        Ok(s) => Ok(s@),
        Err(e) => Err(e@),
    }
}

/// The view of a statistics result.
pub open spec fn stats_answer(r: Result<ProviderStats, String>) -> Result<StatsView, Seq<char>> {
    match r {
        Ok(s) => Ok(s@),
        Err(e) => Err(e@),
    }
}

/// The Codex card from the account usage (through its cache), the local statistics, the
/// compact form of the lifetime tokens (shown only when the account reports them), and the
/// current time (seconds since 1970).
pub fn get_stats(
    account: Result<Fetched, String>,
    local: Result<LocalStats, String>,
    lifetime_text: Option<String>,
    now_secs: i64,
) -> (r: Result<ProviderStats, String>)
    ensures
        codex_stats_hold(
            stats_answer(r),
            account_view(account),
            local_view(local),
            opt_text(lifetime_text),
            now_secs as int,
        ),
{
    let ghost av = account_view(account);
    let ghost lview = local_view(local);
    let (account_value, account_stale) = match account {
        Ok(f) => (Some(f.value), f.stale),
        Err(_) => (None, false),
    };
    if account_value.is_none() && local.is_err() {
        return Err("Codex account and local session usage are unavailable".to_owned());
    }
    let local = match local {
        Ok(l) => l,
        Err(_) => {
            let l = LocalStats {
                daily: Vec::new(),
                model_tokens: Vec::new(),
                session_count: 0,
                since: None,
            };
            proof {
                assert(l@.daily =~= no_local().daily);
                assert(l@.model_tokens =~= no_local().model_tokens);
            }
            l
        },
    };
    let ghost lv = local@;
    let today = date_from_secs(now_secs);
    let counts = day_counts(&local.daily, &today);
    let buckets = match &account_value {
        Some(v) => daily_buckets(v),
        None => Vec::new(),
    };
    let account_today = match value_on(&buckets, &today) {
        Some(t) => t,
        None => 0,
    };
    let daily14 = if account_value.is_some() && buckets.len() > 0 {
        buckets
    } else {
        recent_points(&prompts(&local.daily))
    };
    let ghost d14 = points_view(daily14@);
    let activity_label = if account_value.is_some() {
        "14-Day Token Activity".to_owned()
    } else {
        "14-Day Prompt Activity".to_owned()
    };
    let ranked = sort_by_value_desc(&local.model_tokens);
    let ghost rv = tally_view(ranked@);
    let mut breakdown: Vec<BreakdownRow> = Vec::new();
    let mut k: usize = 0;
    while k < ranked.len()
        invariant
            0 <= k <= ranked.len(),
            rv == tally_view(ranked@),
            breakdown@.len() == k,
            rows_view(breakdown@) == rv.take(k as int),
        decreases ranked.len() - k,
    {
        let ghost prev = rows_view(breakdown@);
        breakdown.push(BreakdownRow { key: ranked[k].0.clone(), value: ranked[k].1 });
        proof {
            assert forall|q: int| 0 <= q < k implies #[trigger] rows_view(breakdown@)[q] == rv.take(
                k + 1,
            )[q] by {
                assert(prev[q] == rv.take(k as int)[q]);
            }
            assert(rv[k as int] == (ranked@[k as int].0@, ranked@[k as int].1));
            assert(rows_view(breakdown@) =~= rv.take(k + 1));
        }
        k = k + 1;
    }
    proof {
        assert(rv.take(ranked.len() as int) =~= rv);
    }
    let mut footer: Vec<String> = Vec::new();
    let ghost mut head: Seq<Seq<char>> = Seq::empty();
    match &account_value {
        Some(v) => {
            let w = Some(v.clone_json());
            match (lifetime_tokens(v), &lifetime_text) {
                (Some(_), Some(t)) => {
                    let mut line = chars_of(t.as_str());
                    append_str(&mut line, " lifetime tokens");
                    footer.push(string_of_vec(&line));
                },
                _ => {},
            }
            match get_i64(&get(&get(&w, "summary"), "currentStreakDays")) {
                Some(streak) => {
                    let mut line = signed_decimal_chars(streak);
                    append_str(&mut line, "-day streak");
                    footer.push(string_of_vec(&line));
                },
                None => {},
            }
            proof {
                head = codex_footer(Some(v@), opt_text(lifetime_text), 0).drop_last();
                assert(texts_view(footer@) =~= head);
            }
        },
        None => {
            proof {
                assert(texts_view(footer@) =~= head);
            }
        },
    }
    let mut last_line = signed_decimal_chars(local.session_count);
    append_str(&mut last_line, " local sessions");
    footer.push(string_of_vec(&last_line));
    let data_scope = match (account_value.is_some(), account_stale) {
        (true, true) => Some("Cached account usage + local sessions".to_owned()),
        (true, false) => Some("Account usage + local sessions".to_owned()),
        (false, _) => Some("Local sessions only".to_owned()),
    };
    let mut metrics: Vec<SummaryMetric> = Vec::new();
    let has_account = account_value.is_some();
    metrics.push(
        SummaryMetric {
            label: if has_account {
                "Tokens".to_owned()
            } else {
                "Prompts".to_owned()
            },
            value: if has_account {
                account_today
            } else {
                counts.messages
            },
        },
    );
    metrics.push(SummaryMetric { label: "Sessions".to_owned(), value: counts.sessions });
    metrics.push(SummaryMetric { label: "Tools".to_owned(), value: counts.tools });
    let st = ProviderStats {
        provider: ProviderId::Codex,
        metrics,
        activity_label,
        daily14,
        breakdown_label: "Output Tokens by Model".to_owned(),
        breakdown,
        footer,
        since: local.since,
        data_scope,
        last_updated: today,
    };
    proof {
        let sv = st@;
        assert(sv.metrics.len() == 3);
        assert(sv.metrics[1] == ("Sessions"@, counts.sessions));
        assert(sv.metrics[2] == ("Tools"@, counts.tools));
        assert(sv.footer =~= codex_footer(
            match av {
                Ok((v, _)) => Some(v),
                Err(_) => None,
            },
            opt_text(lifetime_text),
            lv.session_count,
        ));
        match av {
            Ok((v, stale)) => {
                let b = points_view(buckets@);
                assert(recent_by_date(buckets_of(v), b));
                assert(sv.metrics[0] == (
                    "Tokens"@,
                    match first_on(b, day_text(now_secs as int / 86400)) {
                        Some(t) => t,
                        None => 0,
                    },
                ));
            },
            Err(_) => {},
        }
    }
    Ok(st)
}

/// The date of a log line, when it reads and has one.
pub open spec fn date_of_line(line: Seq<char>) -> Option<Seq<char>> {
    match log_line(line) {
        Some(l) => log_date(l),
        None => None,
    }
}

/// The model a `turn_context` line names.
pub open spec fn model_of_line(line: Seq<char>) -> Option<Seq<char>> {
    match log_line(line) {
        Some(l) => if l.kind == Some("turn_context"@) {
            l.model
        } else {
            None
        },
        None => None,
    }
}

/// `d` is the date of some line.
pub open spec fn some_line_date(lines: Seq<Seq<char>>, d: Seq<char>) -> bool {
    exists|j: int| 0 <= j < lines.len() && #[trigger] date_of_line(lines[j]) == Some(d)
}

/// `m` is `unknown` or the model some line names.
pub open spec fn some_line_model(lines: Seq<Seq<char>>, m: Seq<char>) -> bool {
    m == "unknown"@ || exists|j: int| 0 <= j < lines.len() && #[trigger] model_of_line(lines[j]) == Some(m)
}

/// What the scan keeps is metadata of the lines: dates and model names.
pub open spec fn scan_keeps_metadata(st: ScanState, lines: Seq<Seq<char>>) -> bool {
    &&& forall|i: int| 0 <= i < st.daily.len() ==> some_line_date(lines, (#[trigger] st.daily[i]).0)
    &&& forall|i: int| 0 <= i < st.models.len() ==> some_line_model(lines, (#[trigger] st.models[i]).0)
    &&& some_line_model(lines, st.model)
    &&& (st.first_date matches Some(d) ==> some_line_date(lines, d))
}

proof fn lemma_upsert_keys<V>(s: Seq<(Seq<char>, V)>, k: Seq<char>, v: V)
    ensures
        forall|i: int|
            0 <= i < upsert(s, k, v).len() ==> (#[trigger] upsert(s, k, v)[i]).0 == k || (i < s.len()
                && upsert(s, k, v)[i].0 == s[i].0),
{
    crate::tally::lemma_key_index(crate::tally::keys_of(s), k);
    assert forall|i: int| 0 <= i < upsert(s, k, v).len() implies (#[trigger] upsert(s, k, v)[i]).0
        == k || (i < s.len() && upsert(s, k, v)[i].0 == s[i].0) by {
        match crate::tally::key_index(crate::tally::keys_of(s), k) {
            Some(x) => {
                assert(upsert(s, k, v) == s.update(x, (k, v)));
                if i != x {
                    assert(upsert(s, k, v)[i] == s[i]);
                }
            },
            None => {
                assert(upsert(s, k, v) == s.push((k, v)));
                if i < s.len() {
                    assert(upsert(s, k, v)[i] == s[i]);
                }
            },
        }
    }
}

proof fn lemma_scan_keeps_metadata(lines: Seq<Seq<char>>)
    ensures
        scan_keeps_metadata(scan_lines(lines), lines),
    decreases lines.len(),
{
    if lines.len() > 0 {
        let prev_lines = lines.drop_last();
        lemma_scan_keeps_metadata(prev_lines);
        let st = scan_lines(prev_lines);
        let line = lines.last();
        assert(line == lines[lines.len() - 1]);
        assert forall|d: Seq<char>| some_line_date(prev_lines, d) implies some_line_date(lines, d) by {
            let j = choose|j: int| 0 <= j < prev_lines.len() && #[trigger] date_of_line(prev_lines[j]) == Some(d);
            assert(prev_lines[j] == lines[j]);
        }
        assert forall|m: Seq<char>| some_line_model(prev_lines, m) implies some_line_model(lines, m) by {
            if m != "unknown"@ {
                let j = choose|j: int| 0 <= j < prev_lines.len() && #[trigger] model_of_line(prev_lines[j]) == Some(m);
                assert(prev_lines[j] == lines[j]);
            }
        }
        match log_line(line) {
            None => {},
            Some(l) => {
                let date = log_date(l);
                assert(date_of_line(lines[lines.len() - 1]) == date);
                match date {
                    Some(d) => {
                        assert(some_line_date(lines, d));
                        lemma_bump_keys(st.daily, d, 0);
                        lemma_bump_keys(st.daily, d, 1);
                        lemma_bump_keys(st.daily, d, 2);
                    },
                    None => {},
                }
                if l.kind == Some("turn_context"@) {
                    match l.model {
                        Some(m) => {
                            assert(model_of_line(lines[lines.len() - 1]) == Some(m));
                        },
                        None => {},
                    }
                }
                let cur = match value_of(st.models, st.model) {
                    Some(x) => x,
                    None => 0i64,
                };
                let out = match l.output {
                    Some(o) => o,
                    None => 0,
                };
                lemma_upsert_keys(st.models, st.model, cur.wrapping_add(out));
            },
        }
    }
}

proof fn lemma_bump_keys(daily: Seq<(Seq<char>, DayCounts)>, d: Seq<char>, which: int)
    ensures
        forall|i: int|
            0 <= i < bump_day(daily, d, which).len() ==> (#[trigger] bump_day(daily, d, which)[i]).0 == d
                || (i < daily.len() && bump_day(daily, d, which)[i].0 == daily[i].0),
{
    let cur = day_of(daily, d);
    let v = if which == 0 {
        DayCounts { messages: cur.messages.wrapping_add(1), ..cur }
    } else if which == 1 {
        DayCounts { sessions: cur.sessions.wrapping_add(1), ..cur }
    } else {
        DayCounts { tools: cur.tools.wrapping_add(1), ..cur }
    };
    lemma_upsert_keys(daily, d, v);
}

/// A session log's summary keeps metadata only, never content: each date it counts is the
/// date of one of the log's lines, and each model it counts is `unknown` or a model that a
/// `turn_context` line names.
pub proof fn law_summary_keeps_only_metadata(lines: Seq<Seq<char>>, modified_secs: u64, length: u64)
    ensures
        ({
            let s = summary_of(lines, modified_secs, length);
            &&& forall|i: int| 0 <= i < s.daily.len() ==> some_line_date(lines, (#[trigger] s.daily[i]).0)
            &&& forall|i: int| 0 <= i < s.model_tokens.len() ==> some_line_model(
                lines,
                (#[trigger] s.model_tokens[i]).0,
            )
        }),
{
    lemma_scan_keeps_metadata(lines);
    let st = scan_lines(lines);
    match st.first_date {
        Some(d) => {
            lemma_bump_keys(st.daily, d, 1);
        },
        None => {},
    }
}

/// Scans that read the same fields, line by line, end the same.
proof fn lemma_scan_same_fields(st: ScanState, a: Seq<Seq<char>>, b: Seq<Seq<char>>)
    requires
        a.len() == b.len(),
        forall|i: int| 0 <= i < a.len() ==> log_line(#[trigger] a[i]) == log_line(b[i]),
    ensures
        scan_from(st, a) == scan_from(st, b),
    decreases a.len(),
{
    if a.len() > 0 {
        lemma_scan_same_fields(st, a.drop_last(), b.drop_last());
        assert(log_line(a[a.len() - 1]) == log_line(b[b.len() - 1]));
    }
}

/// Scanning two runs of lines one after the other is scanning the runs joined.
proof fn lemma_scan_from_join(st: ScanState, a: Seq<Seq<char>>, b: Seq<Seq<char>>)
    ensures
        scan_from(st, a + b) == scan_from(scan_from(st, a), b),
    decreases b.len(),
{
    if b.len() == 0 {
        assert(a + b =~= a);
    } else {
        lemma_scan_from_join(st, a, b.drop_last());
        assert((a + b).drop_last() =~= a + b.drop_last());
        assert((a + b).last() == b.last());
    }
}

/// The summary depends on metadata only: two logs whose lines agree, line by line, on the
/// fields the scan reads (the timestamp and type, and the payload's type, role, model and
/// last token usage's output tokens) have the same summary, whatever prompt, reply, command
/// output or file text they hold besides.
pub proof fn law_summary_depends_on_metadata_only(
    a: Seq<Seq<char>>,
    b: Seq<Seq<char>>,
    modified_secs: u64,
    length: u64,
)
    requires
        a.len() == b.len(),
        forall|i: int| 0 <= i < a.len() ==> log_line(#[trigger] a[i]) == log_line(b[i]),
    ensures
        summary_of(a, modified_secs, length) == summary_of(b, modified_secs, length),
{
    lemma_scan_same_fields(scan_start(), a, b);
}

/// A malformed line (not JSON, or with a timestamp whose date would end inside a character)
/// counts for nothing: inserting one anywhere in a log leaves its summary unchanged, and the
/// lines after it are still read.
pub proof fn law_malformed_line_is_skipped(
    before: Seq<Seq<char>>,
    line: Seq<char>,
    after: Seq<Seq<char>>,
    modified_secs: u64,
    length: u64,
)
    requires
        skipped_line(line),
    ensures
        summary_of(before + seq![line] + after, modified_secs, length) == summary_of(
            before + after,
            modified_secs,
            length,
        ),
{
    let with_line = before + seq![line];
    lemma_scan_from_join(scan_start(), with_line, after);
    lemma_scan_from_join(scan_start(), before, after);
    assert(with_line.drop_last() =~= before);
    assert(with_line.last() == line);
    assert(scan_from(scan_start(), with_line) == scan_from(scan_start(), before));
}

/// A dated `response_item` line whose payload is a function, custom tool or web search call
/// adds exactly one tool call to its date, and changes no other count of that date or of any
/// other date.
pub proof fn law_tool_call_adds_one(st: ScanState, line: Seq<char>, l: LogLine, date: Seq<char>)
    requires
        log_line(line) == Some(l),
        !skipped_line(line),
        l.kind == Some("response_item"@),
        log_date(l) == Some(date),
        l.item == Some("function_call"@) || l.item == Some("custom_tool_call"@) || l.item == Some(
            "web_search_call"@,
        ),
    ensures
        day_of(scan_step(st, line).daily, date).tools == day_of(st.daily, date).tools.wrapping_add(1),
        day_of(scan_step(st, line).daily, date).messages == day_of(st.daily, date).messages,
        day_of(scan_step(st, line).daily, date).sessions == day_of(st.daily, date).sessions,
        forall|other: Seq<char>|
            other != date ==> #[trigger] day_of(scan_step(st, line).daily, other) == day_of(
                st.daily,
                other,
            ),
{
    let cur = day_of(st.daily, date);
    let next = DayCounts { tools: cur.tools.wrapping_add(1), ..cur };
    reveal_strlit("message");
    reveal_strlit("function_call");
    reveal_strlit("custom_tool_call");
    reveal_strlit("web_search_call");
    reveal_strlit("response_item");
    reveal_strlit("session_meta");
    reveal_strlit("turn_context");
    assert("response_item"@.len() == 13 && "session_meta"@.len() == 12 && "turn_context"@.len()
        == 12);
    assert("message"@.len() == 7 && "function_call"@.len() == 13 && "custom_tool_call"@.len() == 16
        && "web_search_call"@.len() == 15);
    assert(l.kind != Some("session_meta"@) && l.kind != Some("turn_context"@));
    assert(l.item != Some("message"@));
    assert(step_of(st, l).daily == bump_day(st.daily, date, 2));
    assert(bump_day(st.daily, date, 2) == upsert(st.daily, date, next));
    crate::tally::lemma_upsert(st.daily, date, next);
    assert(day_of(upsert(st.daily, date, next), date) == next);
}

} // verus!
