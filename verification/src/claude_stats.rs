//! Usage statistics of the CLI: the counts that its stats cache holds, brought up to
//! date with the session transcripts written since it was computed.
use vstd::prelude::*;
use vstd::pervasive::VecAdditionalExecFns;
use vstd::string::StringSliceAdditionalSpecFns;
use crate::json::{
    as_array, as_i64, as_str, get, get_i64, get_str, member, opt_view, read, read_json, texts_view,
    Json, JsonView,
};
use crate::providers::{
    opt_text, points_view, rows_view, ActivityPoint, BreakdownRow, ProviderId, ProviderStats,
    StatsView, SummaryMetric,
};
use crate::sorting::{key_sorted, sort_by_key, sort_by_value_desc, value_sorted_desc};
use crate::tally::{
    add_count, add_to, day_counts, day_of, find_key, keys_of, keys_unique, lemma_key_index,
    lemma_upsert, put_value, string_keys, tally_view, upsert, value_of, DayCounts,
};
use crate::text::{
    append_str, chars_le, chars_of, signed_decimal, signed_decimal_chars, string_of_vec,
    take_chars, text_le, trim_chars, trimmed,
};
use crate::timestamps::{date_from_secs, day_text};

verus! {

broadcast use vstd::string::group_string_axioms;

/// The lines of a text, split at each line feed (the last one may be empty).
pub open spec fn split_lines(s: Seq<char>) -> Seq<Seq<char>>
    decreases s.len(),
{
    if s.len() == 0 {
        seq![Seq::<char>::empty()]
    } else {
        let r = split_lines(s.drop_last());
        if s.last() == '\n' {
            r.push(Seq::empty())
        } else {
            r.update(r.len() - 1, r.last().push(s.last()))
        }
    }
}

proof fn lemma_split_lines_len(s: Seq<char>)
    ensures
        split_lines(s).len() >= 1,
    decreases s.len(),
{
    if s.len() > 0 {
        lemma_split_lines_len(s.drop_last());
    }
}

/// The lines of `s`.
pub fn lines_of(s: &Vec<char>) -> (r: Vec<Vec<char>>)
    ensures
        r@.map_values(|l: Vec<char>| l@) == split_lines(s@),
{
    let mut out: Vec<Vec<char>> = Vec::new();
    let mut current: Vec<char> = Vec::new();
    let mut i: usize = 0;
    proof {
        assert(s@.take(0) =~= Seq::<char>::empty());
        assert(out@.map_values(|l: Vec<char>| l@).push(current@) =~= split_lines(s@.take(0)));
    }
    while i < s.len()
        invariant
            0 <= i <= s.len(),
            out@.map_values(|l: Vec<char>| l@).push(current@) == split_lines(s@.take(i as int)),
        decreases s.len() - i,
    {
        let ghost before = out@.map_values(|l: Vec<char>| l@).push(current@);
        proof {
            assert(s@.take(i + 1).drop_last() == s@.take(i as int));
            assert(s@.take(i + 1).last() == s@[i as int]);
        }
        if s[i] == '\n' {
            let done = current;
            current = Vec::new();
            out.push(done);
            proof {
                assert(out@.map_values(|l: Vec<char>| l@).push(current@) =~= before.push(
                    Seq::<char>::empty(),
                ));
            }
        } else {
            current.push(s[i]);
            proof {
                assert(out@.map_values(|l: Vec<char>| l@).push(current@) =~= before.update(
                    before.len() - 1,
                    before.last().push(s@[i as int]),
                ));
            }
        }
        i = i + 1;
    }
    out.push(current);
    proof {
        assert(s@.take(s.len() as int) == s@);
    }
    out
}

/// The date of a timestamp: its first ten bytes, when it has that many.
pub open spec fn ts_date(ts: Seq<char>) -> Option<Seq<char>> {
    let b = vstd::utf8::encode_utf8(ts);
    if b.len() >= 10 {
        Some(vstd::utf8::decode_utf8(b.subrange(0, 10)))
    } else {
        None
    }
}

/// Cutting a timestamp at ten bytes falls inside a character, where `str` slicing panics.
pub open spec fn cut_inside_char(ts: Seq<char>) -> bool {
    let b = vstd::utf8::encode_utf8(ts);
    b.len() >= 10 && !vstd::utf8::is_char_boundary(b, 10)
}

/// A transcript line whose timestamp would be cut inside a character: reading it panics.
pub open spec fn line_panics(line: Seq<char>) -> bool {
    match read(trimmed(line)) {
        Some(v) => match as_str(member(Some(v), "timestamp"@)) {
            Some(ts) => cut_inside_char(ts),
            None => false,
        },
        None => false,
    }
}

/// What a transcript line counts for.
pub enum LineFact {
    /// Nothing: not JSON, no usable timestamp, already in the stats cache, or another kind.
    Nothing,
    /// A user message on `date`, in session `session` when the line names one.
    User { date: Seq<char>, session: Option<Seq<char>> },
    /// An assistant message on `date`, with its tool calls and, when it produced output, the
    /// model and the output tokens.
    Assistant { date: Seq<char>, tools: i64, output: Option<(Seq<char>, i64)> },
}

/// The number of content items of type `tool_use`.
pub open spec fn tool_uses(items: Seq<JsonView>) -> int
    decreases items.len(),
{
    if items.len() == 0 {
        0
    } else {
        tool_uses(items.drop_last()) + if as_str(member(Some(items.last()), "type"@)) == Some(
            "tool_use"@,
        ) {
            1int
        } else {
            0int
        }
    }
}

/// The session a user line belongs to: `sessionId`, else `parentUuid`.
pub open spec fn session_of(v: JsonView) -> Option<Seq<char>> {
    match as_str(member(Some(v), "sessionId"@)) {
        Some(s) => Some(s),
        None => as_str(member(Some(v), "parentUuid"@)),
    }
}

/// The model and output tokens of an assistant message that produced output.
pub open spec fn model_output(m: JsonView) -> Option<(Seq<char>, i64)> {
    let out = match as_i64(member(member(Some(m), "usage"@), "output_tokens"@)) {
        Some(o) => o,
        None => 0,
    };
    if out > 0 {
        match as_str(member(Some(m), "model"@)) {
            Some(model) => Some((model, out)),
            None => None,
        }
    } else {
        None
    }
}

/// What line `line` counts for when the stats cache was computed up to `last`.
pub open spec fn line_fact(line: Seq<char>, last: Seq<char>) -> LineFact {
    match read(trimmed(line)) {
        None => LineFact::Nothing,
        Some(v) => match as_str(member(Some(v), "timestamp"@)) {
            None => LineFact::Nothing,
            Some(ts) => match ts_date(ts) {
                None => LineFact::Nothing,
                Some(date) => if text_le(date, last) {
                    LineFact::Nothing
                } else {
                    let kind = match as_str(member(Some(v), "type"@)) {
                        Some(k) => k,
                        None => Seq::empty(),
                    };
                    if kind == "user"@ {
                        LineFact::User { date, session: session_of(v) }
                    } else if kind == "assistant"@ {
                        match member(Some(v), "message"@) {
                            None => LineFact::Nothing,
                            Some(m) => LineFact::Assistant {
                                date,
                                tools: (match as_array(member(Some(m), "content"@)) {
                                    Some(items) => tool_uses(items),
                                    None => 0,
                                }) as i64,
                                output: model_output(m),
                            },
                        }
                    } else {
                        LineFact::Nothing
                    }
                },
            },
        },
    }
}

/// A transcript line as read.
#[derive(Debug)]
pub enum LineRead {
    Nothing,
    User { date: String, session: Option<String> },
    Assistant { date: String, tools: i64, output: Option<(String, i64)> },
}

/// The view of a line as read.
pub open spec fn read_view(r: LineRead) -> LineFact {
    match r {
        LineRead::Nothing => LineFact::Nothing,
        LineRead::User { date, session } => LineFact::User {
            date: date@,
            session: match session {
                Some(s) => Some(s@),
                None => None,
            },
        },
        LineRead::Assistant { date, tools, output } => LineFact::Assistant {
            date: date@,
            tools,
            output: match output {
                Some(p) => Some((p.0@, p.1)),
                None => None,
            },
        },
    }
}

/// The first ten bytes of a timestamp, when it has that many and they end on a character
/// boundary.
pub fn cut_date(ts: &str) -> (r: Option<Option<String>>)
    ensures
        match r {
            None => cut_inside_char(ts@),
            Some(d) => !cut_inside_char(ts@) && match d {
                Some(date) => ts_date(ts@) == Some(date@),
                None => ts_date(ts@) is None,
            },
        },
{
    proof {
        vstd::utf8::encode_utf8_valid_utf8(ts@);
    }
    if ts.as_bytes().len() < 10 {
        return Some(None);
    }
    if !ts.is_char_boundary(10) {
        return None;
    }
    let (head, _) = ts.split_at(10);
    proof {
        vstd::utf8::encode_utf8_decode_utf8(head@);
    }
    Some(Some(head.to_owned()))
}

/// The number of content items of type `tool_use`.
fn count_tool_uses(items: &Vec<Json>) -> (r: usize)
    ensures
        r == tool_uses(items@.map_values(|j: Json| j@)),
{
    let ghost iv = items@.map_values(|j: Json| j@);
    let mut n: usize = 0;
    let mut i: usize = 0;
    proof {
        assert(iv.take(0) =~= Seq::<JsonView>::empty());
    }
    while i < items.len()
        invariant
            0 <= i <= items.len(),
            iv == items@.map_values(|j: Json| j@),
            n == tool_uses(iv.take(i as int)),
            n <= i,
        decreases items.len() - i,
    {
        proof {
            assert(iv.take(i + 1).drop_last() == iv.take(i as int));
            assert(iv.take(i + 1).last() == items@[i as int]@);
        }
        let kind = get_str(&items[i].member("type"));
        let is_tool = match kind {
            Some(k) => {
                let kc = chars_of(k.as_str());
                crate::text::chars_eq_str(&kc, "tool_use")
            },
            None => false,
        };
        if is_tool {
            n = n + 1;
        }
        i = i + 1;
    }
    proof {
        assert(iv.take(items.len() as int) == iv);
    }
    n
}

/// Reads one transcript line; `last` is the date the stats cache was computed up to.
pub fn read_line(line: &Vec<char>, last: &Vec<char>) -> (r: LineRead)
    requires
        !line_panics(line@),
    ensures
        read_view(r) == line_fact(line@, last@),
{
    let text = string_of_vec(&trim_chars(line));
    let value = read_json(text.as_str());
    let ts = match get_str(&get(&value, "timestamp")) {
        Some(ts) => ts,
        None => return LineRead::Nothing,
    };
    let date = match cut_date(ts.as_str()) {
        None => return LineRead::Nothing,
        Some(None) => return LineRead::Nothing,
        Some(Some(d)) => d,
    };
    let date_chars = chars_of(date.as_str());
    if chars_le(&date_chars, last) {
        return LineRead::Nothing;
    }
    let kind = match get_str(&get(&value, "type")) {
        Some(k) => chars_of(k.as_str()),
        None => Vec::new(),
    };
    if crate::text::chars_eq_str(&kind, "user") {
        let session = match get_str(&get(&value, "sessionId")) {
            Some(s) => Some(s),
            None => get_str(&get(&value, "parentUuid")),
        };
        LineRead::User { date, session }
    } else if crate::text::chars_eq_str(&kind, "assistant") {
        let message = get(&value, "message");
        match &message {
            None => LineRead::Nothing,
            Some(_) => {
                let tools = match get(&message, "content") {
                    Some(content) => match content.elements() {
                        Some(items) => count_tool_uses(&items) as i64,
                        None => 0,
                    },
                    None => 0,
                };
                let out = match get_i64(&get(&get(&message, "usage"), "output_tokens")) {
                    Some(o) => o,
                    None => 0,
                };
                let output = if out > 0 {
                    match get_str(&get(&message, "model")) {
                        Some(model) => Some((model, out)),
                        None => None,
                    }
                } else {
                    None
                };
                LineRead::Assistant { date, tools, output }
            },
        }
    } else {
        LineRead::Nothing
    }
}

/// What the transcripts add to the stats cache: per date the user messages, the distinct
/// sessions (in the order they first appeared) and the tool calls, and per model the output
/// tokens.
pub struct Deltas {
    pub messages: Seq<(Seq<char>, i64)>,
    pub sessions: Seq<(Seq<char>, Seq<Seq<char>>)>,
    pub tools: Seq<(Seq<char>, i64)>,
    pub models: Seq<(Seq<char>, i64)>,
}

/// Nothing added yet.
pub open spec fn no_deltas() -> Deltas {
    Deltas { messages: Seq::empty(), sessions: Seq::empty(), tools: Seq::empty(), models: Seq::empty() }
}

/// `map.entry(k).or_default().insert(id)` on sets of session ids.
pub open spec fn add_member(s: Seq<(Seq<char>, Seq<Seq<char>>)>, k: Seq<char>, id: Seq<char>) -> Seq<
    (Seq<char>, Seq<Seq<char>>),
> {
    let current = match value_of(s, k) {
        Some(v) => v,
        None => Seq::empty(),
    };
    upsert(s, k, if current.contains(id) { current } else { current.push(id) })
}

/// The tallies after one more line.
pub open spec fn apply_fact(d: Deltas, f: LineFact) -> Deltas {
    match f {
        LineFact::Nothing => d,
        LineFact::User { date, session } => Deltas {
            messages: add_count(d.messages, date, 1),
            sessions: match session {
                Some(id) => add_member(d.sessions, date, id),
                None => d.sessions,
            },
            ..d
        },
        LineFact::Assistant { date, tools, output } => Deltas {
            tools: add_count(d.tools, date, tools),
            models: match output {
                Some((model, tokens)) => add_count(d.models, model, tokens),
                None => d.models,
            },
            ..d
        },
    }
}

/// The tallies after the lines, in order.
pub open spec fn apply_lines(d: Deltas, lines: Seq<Seq<char>>, last: Seq<char>) -> Deltas
    decreases lines.len(),
{
    if lines.len() == 0 {
        d
    } else {
        apply_fact(apply_lines(d, lines.drop_last(), last), line_fact(lines.last(), last))
    }
}

/// A user line after the cache's date is counted in the session its `sessionId` names,
/// whatever else the line holds; `parentUuid` names the session only when there is no
/// `sessionId`.
pub proof fn law_user_line_session_is_its_session_id(
    line: Seq<char>,
    last: Seq<char>,
    v: JsonView,
    ts: Seq<char>,
    date: Seq<char>,
)
    requires
        read(trimmed(line)) == Some(v),
        as_str(member(Some(v), "timestamp"@)) == Some(ts),
        ts_date(ts) == Some(date),
        !text_le(date, last),
        as_str(member(Some(v), "type"@)) == Some("user"@),
    ensures
        as_str(member(Some(v), "sessionId"@)) matches Some(id) ==> line_fact(line, last) == (
        LineFact::User { date, session: Some(id) }),
        as_str(member(Some(v), "sessionId"@)) is None ==> line_fact(line, last) == (LineFact::User {
            date,
            session: as_str(member(Some(v), "parentUuid"@)),
        }),
{
}

/// Two user lines of one session on one date count one session there: the date's sessions
/// hold the id after the first, and the second changes nothing.
pub proof fn law_same_session_counts_once(d: Deltas, date: Seq<char>, id: Seq<char>)
    ensures
        value_of(apply_fact(d, (LineFact::User { date, session: Some(id) })).sessions, date) is Some,
        value_of(apply_fact(d, (LineFact::User { date, session: Some(id) })).sessions, date)->0.contains(
            id,
        ),
        value_of(
            apply_fact(
                apply_fact(d, (LineFact::User { date, session: Some(id) })),
                (LineFact::User { date, session: Some(id) }),
            ).sessions,
            date,
        ) == value_of(apply_fact(d, (LineFact::User { date, session: Some(id) })).sessions, date),
{
    let current = match value_of(d.sessions, date) {
        Some(v) => v,
        None => Seq::empty(),
    };
    let newv = if current.contains(id) { current } else { current.push(id) };
    if !current.contains(id) {
        assert(newv[newv.len() - 1] == id);
    }
    assert(newv.contains(id));
    lemma_upsert(d.sessions, date, newv);
    let once = add_member(d.sessions, date, id);
    lemma_upsert(once, date, newv);
}

/// Some line of a transcript that is read would have its timestamp cut inside a character.
pub open spec fn files_panic(files: Seq<(Option<i64>, Seq<char>)>, last: Seq<char>) -> bool {
    exists|i: int, j: int|
        0 <= i < files.len() && file_kept(files[i].0, last) && 0 <= j < split_lines(
            files[i].1,
        ).len() && #[trigger] line_panics(#[trigger] split_lines(files[i].1)[j])
}

/// A transcript file: when it was last modified (seconds since 1970, when known) and its text.
#[derive(Debug)]
pub struct SessionFile {
    pub modified_secs: Option<i64>,
    pub contents: String,
}

/// The view of the files.
pub open spec fn files_view(fs: Seq<SessionFile>) -> Seq<(Option<i64>, Seq<char>)> {
    fs.map_values(|f: SessionFile| (f.modified_secs, f.contents@))
}

/// A file is read unless it was last modified on or before the date the stats cache covers.
pub open spec fn file_kept(secs: Option<i64>, last: Seq<char>) -> bool {
    match secs {
        Some(t) => !text_le(day_text(t as int / 86400), last),
        None => true,
    }
}

/// The tallies after the files that are read, in order.
pub open spec fn apply_files(d: Deltas, files: Seq<(Option<i64>, Seq<char>)>, last: Seq<char>) -> Deltas
    decreases files.len(),
{
    if files.len() == 0 {
        d
    } else {
        let prev = apply_files(d, files.drop_last(), last);
        if file_kept(files.last().0, last) {
            apply_lines(prev, split_lines(files.last().1), last)
        } else {
            prev
        }
    }
}

/// The tallies as the code keeps them.
#[derive(Debug)]
pub struct DeltaTallies {
    pub messages: Vec<(String, i64)>,
    pub sessions: Vec<(String, Vec<String>)>,
    pub tools: Vec<(String, i64)>,
    pub models: Vec<(String, i64)>,
}

/// The view of a tally of session sets.
pub open spec fn sessions_view(e: Seq<(String, Vec<String>)>) -> Seq<(Seq<char>, Seq<Seq<char>>)> {
    e.map_values(|p: (String, Vec<String>)| (p.0@, texts_view(p.1@)))
}

impl View for DeltaTallies {
    type V = Deltas;

    open spec fn view(&self) -> Deltas {
        Deltas {
            messages: tally_view(self.messages@),
            sessions: sessions_view(self.sessions@),
            tools: tally_view(self.tools@),
            models: tally_view(self.models@),
        }
    }
}

/// Adds session `id` to the sessions of `date`.
fn add_session(sessions: &mut Vec<(String, Vec<String>)>, date: String, id: String)
    ensures
        sessions_view(final(sessions)@) == add_member(sessions_view(old(sessions)@), date@, id@),
{
    let ghost before = sessions_view(sessions@);
    proof {
        assert(keys_of(before) =~= string_keys(sessions@));
        lemma_key_index(string_keys(sessions@), date@);
    }
    match find_key(sessions, &date) {
        Some(i) => {
            let mut pair: (String, Vec<String>) = (String::new(), Vec::new());
            sessions.set_and_swap(i, &mut pair);
            let ghost cur = texts_view(pair.1@);
            assert(before[i as int] == (pair.0@, cur));
            let mut k: usize = 0;
            let mut found = false;
            while k < pair.1.len()
                invariant
                    0 <= k <= pair.1.len(),
                    cur == texts_view(pair.1@),
                    found == exists|q: int| 0 <= q < k && cur[q] == id@,
                decreases pair.1.len() - k,
            {
                proof {
                    assert(cur[k as int] == pair.1@[k as int]@);
                }
                if pair.1[k] == id {
                    found = true;
                }
                proof {
                    if found {
                        if cur[k as int] == id@ {
                            assert(0 <= k < k + 1 && cur[k as int] == id@);
                        }
                    } else {
                        assert forall|q: int| 0 <= q < k + 1 implies cur[q] != id@ by {}
                    }
                }
                k = k + 1;
            }
            proof {
                if found {
                    let q = choose|q: int| 0 <= q < k && cur[q] == id@;
                    assert(cur.contains(id@));
                } else {
                    assert(!cur.contains(id@));
                }
            }
            if !found {
                pair.1.push(id);
                proof {
                    assert(texts_view(pair.1@) =~= cur.push(id@));
                }
            }
            let ghost newv = texts_view(pair.1@);
            sessions.set(i, (date, pair.1));
            proof {
                assert(sessions_view(sessions@) =~= before.update(i as int, (date@, newv)));
            }
        },
        None => {
            let mut ids: Vec<String> = Vec::new();
            ids.push(id);
            proof {
                assert(texts_view(ids@) =~= Seq::<Seq<char>>::empty().push(id@));
            }
            let ghost newv = texts_view(ids@);
            sessions.push((date, ids));
            proof {
                assert(sessions_view(sessions@) =~= before.push((date@, newv)));
            }
        },
    }
}

/// Counts one line.
fn apply_read(d: &mut DeltaTallies, r: LineRead)
    ensures
        final(d)@ == apply_fact(old(d)@, read_view(r)),
{
    match r {
        LineRead::Nothing => {},
        LineRead::User { date, session } => {
            add_to(&mut d.messages, date.clone(), 1);
            match session {
                Some(id) => add_session(&mut d.sessions, date, id),
                None => {},
            }
        },
        LineRead::Assistant { date, tools, output } => {
            add_to(&mut d.tools, date, tools);
            match output {
                Some((model, tokens)) => add_to(&mut d.models, model, tokens),
                None => {},
            }
        },
    }
}

/// Counts the lines of one transcript.
fn scan_transcript(d: &mut DeltaTallies, contents: &str, last: &Vec<char>)
    requires
        forall|j: int|
            0 <= j < split_lines(contents@).len() ==> !#[trigger] line_panics(
                split_lines(contents@)[j],
            ),
    ensures
        final(d)@ == apply_lines(old(d)@, split_lines(contents@), last@),
{
    let chars = chars_of(contents);
    let lines = lines_of(&chars);
    let ghost lv = lines@.map_values(|l: Vec<char>| l@);
    let ghost start = d@;
    let mut i: usize = 0;
    proof {
        assert(lv.take(0) =~= Seq::<Seq<char>>::empty());
    }
    while i < lines.len()
        invariant
            0 <= i <= lines.len(),
            lv == lines@.map_values(|l: Vec<char>| l@),
            lv == split_lines(contents@),
            forall|j: int| 0 <= j < lv.len() ==> !#[trigger] line_panics(lv[j]),
            d@ == apply_lines(start, lv.take(i as int), last@),
        decreases lines.len() - i,
    {
        proof {
            assert(lv.take(i + 1).drop_last() == lv.take(i as int));
            assert(lv.take(i + 1).last() == lines@[i as int]@);
            assert(!line_panics(lv[i as int]));
        }
        let r = read_line(&lines[i], last);
        apply_read(d, r);
        i = i + 1;
    }
    proof {
        assert(lv.take(lines.len() as int) == lv);
    }
}

/// Whether a transcript is read: it was modified after the date the stats cache covers
/// (`last`), or its time is unknown.
pub fn transcript_is_read(secs: Option<i64>, last: &Vec<char>) -> (r: bool)
    ensures
        r == file_kept(secs, last@),
{
    match secs {
        Some(t) => {
            let date = date_from_secs(t);
            !chars_le(&chars_of(date.as_str()), last)
        },
        None => true,
    }
}

/// Whether reading one transcript line would cut its timestamp inside a character.
fn line_would_panic(line: &Vec<char>) -> (r: bool)
    ensures
        r == line_panics(line@),
{
    let text = string_of_vec(&trim_chars(line));
    let value = read_json(text.as_str());
    match get_str(&get(&value, "timestamp")) {
        Some(ts) => cut_date(ts.as_str()).is_none(),
        None => false,
    }
}

/// Whether some line of a transcript would have its timestamp cut inside a character.
fn transcript_panics(contents: &str) -> (r: bool)
    ensures
        r == exists|j: int|
            0 <= j < split_lines(contents@).len() && #[trigger] line_panics(
                split_lines(contents@)[j],
            ),
{
    let chars = chars_of(contents);
    let lines = lines_of(&chars);
    let ghost lv = lines@.map_values(|l: Vec<char>| l@);
    let mut i: usize = 0;
    while i < lines.len()
        invariant
            0 <= i <= lines.len(),
            lv == lines@.map_values(|l: Vec<char>| l@),
            lv == split_lines(contents@),
            forall|j: int| 0 <= j < i ==> !#[trigger] line_panics(lv[j]),
        decreases lines.len() - i,
    {
        proof {
            assert(lv[i as int] == lines@[i as int]@);
        }
        if line_would_panic(&lines[i]) {
            return true;
        }
        i = i + 1;
    }
    false
}

/// The tallies of the transcripts that are read.
fn scan_transcripts(files: &Vec<SessionFile>, last: &Vec<char>) -> (r: DeltaTallies)
    requires
        !files_panic(files_view(files@), last@),
    ensures
        r@ == apply_files(no_deltas(), files_view(files@), last@),
{
    let ghost fv = files_view(files@);
    let mut d = DeltaTallies {
        messages: Vec::new(),
        sessions: Vec::new(),
        tools: Vec::new(),
        models: Vec::new(),
    };
    proof {
        assert(d@.messages =~= no_deltas().messages);
        assert(d@.sessions =~= no_deltas().sessions);
        assert(d@.tools =~= no_deltas().tools);
        assert(d@.models =~= no_deltas().models);
        assert(fv.take(0) =~= Seq::<(Option<i64>, Seq<char>)>::empty());
    }
    let mut i: usize = 0;
    while i < files.len()
        invariant
            0 <= i <= files.len(),
            fv == files_view(files@),
            !files_panic(fv, last@),
            d@ == apply_files(no_deltas(), fv.take(i as int), last@),
        decreases files.len() - i,
    {
        proof {
            assert(fv.take(i + 1).drop_last() == fv.take(i as int));
            assert(fv.take(i + 1).last() == fv[i as int]);
            assert(fv[i as int] == (files@[i as int].modified_secs, files@[i as int].contents@));
        }
        if transcript_is_read(files[i].modified_secs, last) {
            proof {
                assert forall|j: int|
                    0 <= j < split_lines(files@[i as int].contents@).len() implies !#[trigger] line_panics(
                    split_lines(files@[i as int].contents@)[j],
                ) by {
                    if line_panics(split_lines(files@[i as int].contents@)[j]) {
                        assert(line_panics(split_lines(fv[i as int].1)[j]));
                    }
                }
            }
            scan_transcript(&mut d, files[i].contents.as_str(), last);
        }
        i = i + 1;
    }
    proof {
        assert(fv.take(files.len() as int) == fv);
    }
    d
}

/// The stats cache's value (`None` when it is missing or does not read).
pub open spec fn cache_value(text: Option<Seq<char>>) -> Option<JsonView> {
    match text {
        Some(t) => read(t),
        None => None,
    }
}

/// The date up to which the stats cache was computed.
pub open spec fn cache_last(c: Option<JsonView>) -> Seq<char> {
    match as_str(member(c, "lastComputedDate"@)) {
        Some(d) => d,
        None => "2000-01-01"@,
    }
}

/// A number, `0` when absent.
pub open spec fn or_zero(o: Option<i64>) -> i64 {
    match o {
        Some(v) => v,
        None => 0,
    }
}

/// One day of the stats cache's `dailyActivity`.
pub open spec fn cached_day(d: JsonView) -> DayCounts {
    DayCounts {
        messages: or_zero(as_i64(member(Some(d), "messageCount"@))),
        sessions: or_zero(as_i64(member(Some(d), "sessionCount"@))),
        tools: or_zero(as_i64(member(Some(d), "toolCallCount"@))),
    }
}

/// The days of `dailyActivity`, a later entry for a date replacing an earlier one; entries
/// without a date are skipped.
pub open spec fn cached_days(items: Seq<JsonView>) -> Seq<(Seq<char>, DayCounts)>
    decreases items.len(),
{
    if items.len() == 0 {
        Seq::empty()
    } else {
        let prev = cached_days(items.drop_last());
        let date = match as_str(member(Some(items.last()), "date"@)) {
            Some(d) => d,
            None => Seq::empty(),
        };
        if date.len() == 0 {
            prev
        } else {
            upsert(prev, date, cached_day(items.last()))
        }
    }
}

/// The days the stats cache holds.
pub open spec fn cache_daily(c: Option<JsonView>) -> Seq<(Seq<char>, DayCounts)> {
    cached_days(
        match as_array(member(c, "dailyActivity"@)) {
            Some(items) => items,
            None => Seq::empty(),
        },
    )
}

/// The days with the new user messages added.
pub open spec fn with_messages(daily: Seq<(Seq<char>, DayCounts)>, ms: Seq<(Seq<char>, i64)>) -> Seq<
    (Seq<char>, DayCounts),
>
    decreases ms.len(),
{
    if ms.len() == 0 {
        daily
    } else {
        let prev = with_messages(daily, ms.drop_last());
        let cur = day_of(prev, ms.last().0);
        upsert(prev, ms.last().0, DayCounts { messages: cur.messages.wrapping_add(ms.last().1), ..cur })
    }
}

/// The days with the new sessions added.
pub open spec fn with_sessions(
    daily: Seq<(Seq<char>, DayCounts)>,
    ss: Seq<(Seq<char>, Seq<Seq<char>>)>,
) -> Seq<(Seq<char>, DayCounts)>
    decreases ss.len(),
{
    if ss.len() == 0 {
        daily
    } else {
        let prev = with_sessions(daily, ss.drop_last());
        let cur = day_of(prev, ss.last().0);
        upsert(
            prev,
            ss.last().0,
            DayCounts { sessions: cur.sessions.wrapping_add(ss.last().1.len() as i64), ..cur },
        )
    }
}

/// The days with the new tool calls added.
pub open spec fn with_tools(daily: Seq<(Seq<char>, DayCounts)>, ts: Seq<(Seq<char>, i64)>) -> Seq<
    (Seq<char>, DayCounts),
>
    decreases ts.len(),
{
    if ts.len() == 0 {
        daily
    } else {
        let prev = with_tools(daily, ts.drop_last());
        let cur = day_of(prev, ts.last().0);
        upsert(prev, ts.last().0, DayCounts { tools: cur.tools.wrapping_add(ts.last().1), ..cur })
    }
}

/// Every day: the cached ones brought up to date with the transcripts.
pub open spec fn stats_daily(c: Option<JsonView>, d: Deltas) -> Seq<(Seq<char>, DayCounts)> {
    with_tools(with_sessions(with_messages(cache_daily(c), d.messages), d.sessions), d.tools)
}

/// Each day's user messages.
pub open spec fn message_rows(daily: Seq<(Seq<char>, DayCounts)>) -> Seq<(Seq<char>, i64)> {
    daily.map_values(|p: (Seq<char>, DayCounts)| (p.0, p.1.messages))
}

/// The last fourteen rows.
pub open spec fn last14<A>(s: Seq<A>) -> Seq<A> {
    s.skip(if s.len() > 14 { s.len() - 14 } else { 0 })
}

/// The output tokens per model of the stats cache's `modelUsage` members.
pub open spec fn model_fields(fields: Seq<(Seq<char>, Seq<char>)>) -> Seq<(Seq<char>, i64)>
    decreases fields.len(),
{
    if fields.len() == 0 {
        Seq::empty()
    } else {
        upsert(
            model_fields(fields.drop_last()),
            fields.last().0,
            or_zero(as_i64(member(read(fields.last().1), "outputTokens"@))),
        )
    }
}

/// The output tokens per model that the stats cache holds.
pub open spec fn cache_models(c: Option<JsonView>) -> Seq<(Seq<char>, i64)> {
    match member(c, "modelUsage"@) {
        Some(JsonView::Object(fields)) => model_fields(fields),
        _ => Seq::empty(),
    }
}

/// The rows with the new counts added.
pub open spec fn add_counts(rows: Seq<(Seq<char>, i64)>, ms: Seq<(Seq<char>, i64)>) -> Seq<
    (Seq<char>, i64),
>
    decreases ms.len(),
{
    if ms.len() == 0 {
        rows
    } else {
        add_count(add_counts(rows, ms.drop_last()), ms.last().0, ms.last().1)
    }
}

/// The sum of the counts.
pub open spec fn sum_counts(ms: Seq<(Seq<char>, i64)>) -> i64
    decreases ms.len(),
{
    if ms.len() == 0 {
        0
    } else {
        sum_counts(ms.drop_last()).wrapping_add(ms.last().1)
    }
}

/// The number of distinct sessions, over all dates.
pub open spec fn sum_sessions(ss: Seq<(Seq<char>, Seq<Seq<char>>)>) -> i64
    decreases ss.len(),
{
    if ss.len() == 0 {
        0
    } else {
        sum_sessions(ss.drop_last()).wrapping_add(ss.last().1.len() as i64)
    }
}

/// A count of the stats cache added to one of the transcripts.
pub open spec fn cache_total(c: Option<JsonView>, key: Seq<char>, delta: i64) -> i64 {
    or_zero(as_i64(member(c, key))).wrapping_add(delta)
}

/// The statistics: today's messages, sessions and tool calls; the user messages of the
/// last fourteen days that have any count, in date order; the output tokens per model, largest
/// first; the total sessions and messages; and the date of the first session.
pub open spec fn claude_stats_hold(
    r: StatsView,
    cache_text: Option<Seq<char>>,
    files: Seq<(Option<i64>, Seq<char>)>,
    now_secs: int,
) -> bool {
    let c = cache_value(cache_text);
    let d = apply_files(no_deltas(), files, cache_last(c));
    let daily = stats_daily(c, d);
    let today = day_text(now_secs / 86400);
    let counts = day_of(daily, today);
    let models = add_counts(cache_models(c), d.models);
    &&& r.provider == ProviderId::Claude
    &&& r.metrics == seq![
        ("Messages"@, counts.messages),
        ("Sessions"@, counts.sessions),
        ("Tools"@, counts.tools),
    ]
    &&& r.activity_label == "14-Day Activity"@
    &&& exists|sorted: Seq<(Seq<char>, i64)>|
        key_sorted(sorted) && sorted.to_multiset() == message_rows(daily).to_multiset()
            && r.daily14 == last14(sorted)
    &&& keys_unique(daily)
    &&& r.breakdown_label == "Tokens by Model"@
    &&& value_sorted_desc(r.breakdown)
    &&& r.breakdown.to_multiset() == models.to_multiset()
    &&& r.footer == seq![
        signed_decimal(cache_total(c, "totalSessions"@, sum_sessions(d.sessions)) as int)
            + " sessions"@,
        signed_decimal(cache_total(c, "totalMessages"@, sum_counts(d.messages)) as int)
            + " messages"@,
    ]
    &&& r.since == match as_str(member(c, "firstSessionDate"@)) {
        Some(f) => Some(f.take(if f.len() < 10 { f.len() as int } else { 10 })),
        None => None,
    }
    &&& r.data_scope is None
    &&& r.last_updated == today
}

proof fn lemma_cached_days_unique(items: Seq<JsonView>)
    ensures
        keys_unique(cached_days(items)),
    decreases items.len(),
{
    if items.len() > 0 {
        lemma_cached_days_unique(items.drop_last());
        let prev = cached_days(items.drop_last());
        let date = match as_str(member(Some(items.last()), "date"@)) {
            Some(d) => d,
            None => Seq::empty(),
        };
        lemma_upsert(prev, date, cached_day(items.last()));
    }
}

proof fn lemma_daily_unique(c: Option<JsonView>, d: Deltas)
    ensures
        keys_unique(stats_daily(c, d)),
{
    let items = match as_array(member(c, "dailyActivity"@)) {
        Some(items) => items,
        None => Seq::empty(),
    };
    lemma_cached_days_unique(items);
    lemma_with_messages_unique(cache_daily(c), d.messages);
    let a = with_messages(cache_daily(c), d.messages);
    lemma_with_sessions_unique(a, d.sessions);
    lemma_with_tools_unique(with_sessions(a, d.sessions), d.tools);
}

proof fn lemma_with_messages_unique(daily: Seq<(Seq<char>, DayCounts)>, ms: Seq<(Seq<char>, i64)>)
    requires
        keys_unique(daily),
    ensures
        keys_unique(with_messages(daily, ms)),
    decreases ms.len(),
{
    if ms.len() > 0 {
        lemma_with_messages_unique(daily, ms.drop_last());
        let prev = with_messages(daily, ms.drop_last());
        let cur = day_of(prev, ms.last().0);
        lemma_upsert(prev, ms.last().0, DayCounts { messages: cur.messages.wrapping_add(ms.last().1), ..cur });
    }
}

proof fn lemma_with_sessions_unique(
    daily: Seq<(Seq<char>, DayCounts)>,
    ss: Seq<(Seq<char>, Seq<Seq<char>>)>,
)
    requires
        keys_unique(daily),
    ensures
        keys_unique(with_sessions(daily, ss)),
    decreases ss.len(),
{
    if ss.len() > 0 {
        lemma_with_sessions_unique(daily, ss.drop_last());
        let prev = with_sessions(daily, ss.drop_last());
        let cur = day_of(prev, ss.last().0);
        lemma_upsert(
            prev,
            ss.last().0,
            DayCounts { sessions: cur.sessions.wrapping_add(ss.last().1.len() as i64), ..cur },
        );
    }
}

proof fn lemma_with_tools_unique(daily: Seq<(Seq<char>, DayCounts)>, ts: Seq<(Seq<char>, i64)>)
    requires
        keys_unique(daily),
    ensures
        keys_unique(with_tools(daily, ts)),
    decreases ts.len(),
{
    if ts.len() > 0 {
        lemma_with_tools_unique(daily, ts.drop_last());
        let prev = with_tools(daily, ts.drop_last());
        let cur = day_of(prev, ts.last().0);
        lemma_upsert(prev, ts.last().0, DayCounts { tools: cur.tools.wrapping_add(ts.last().1), ..cur });
    }
}

fn number_or_zero(o: &Option<Json>) -> (r: i64)
    ensures
        r == or_zero(as_i64(opt_view(*o))),
{
    match get_i64(o) {
        Some(v) => v,
        None => 0,
    }
}

/// The days the stats cache holds.
fn read_cached_days(c: &Option<Json>) -> (r: Vec<(String, DayCounts)>)
    ensures
        tally_view(r@) == cache_daily(opt_view(*c)),
{
    let items: Vec<Json> = match get(c, "dailyActivity") {
        Some(a) => match a.elements() {
            Some(items) => items,
            None => Vec::new(),
        },
        None => Vec::new(),
    };
    let ghost iv = items@.map_values(|j: Json| j@);
    proof {
        assert(iv == (match as_array(member(opt_view(*c), "dailyActivity"@)) {
            Some(items) => items,
            None => Seq::empty(),
        })) by {
            if as_array(member(opt_view(*c), "dailyActivity"@)) is None {
                assert(iv =~= Seq::<JsonView>::empty());
            }
        }
    }
    let mut daily: Vec<(String, DayCounts)> = Vec::new();
    let mut i: usize = 0;
    proof {
        assert(iv.take(0) =~= Seq::<JsonView>::empty());
        assert(tally_view(daily@) =~= Seq::<(Seq<char>, DayCounts)>::empty());
    }
    while i < items.len()
        invariant
            0 <= i <= items.len(),
            iv == items@.map_values(|j: Json| j@),
            tally_view(daily@) == cached_days(iv.take(i as int)),
        decreases items.len() - i,
    {
        proof {
            assert(iv.take(i + 1).drop_last() == iv.take(i as int));
            assert(iv.take(i + 1).last() == items@[i as int]@);
        }
        let day = Some(items[i].clone_json());
        let date = match get_str(&get(&day, "date")) {
            Some(d) => d,
            None => String::new(),
        };
        if !date.as_str().is_empty() {
            let counts = DayCounts {
                messages: number_or_zero(&get(&day, "messageCount")),
                sessions: number_or_zero(&get(&day, "sessionCount")),
                tools: number_or_zero(&get(&day, "toolCallCount")),
            };
            put_value(&mut daily, date, counts);
        }
        i = i + 1;
    }
    proof {
        assert(iv.take(items.len() as int) == iv);
    }
    daily
}

/// Adds the new user messages to the days.
fn add_messages(daily: &mut Vec<(String, DayCounts)>, ms: &Vec<(String, i64)>)
    ensures
        tally_view(final(daily)@) == with_messages(tally_view(old(daily)@), tally_view(ms@)),
{
    let ghost start = tally_view(daily@);
    let ghost mv = tally_view(ms@);
    let mut i: usize = 0;
    proof {
        assert(mv.take(0) =~= Seq::<(Seq<char>, i64)>::empty());
    }
    while i < ms.len()
        invariant
            0 <= i <= ms.len(),
            mv == tally_view(ms@),
            tally_view(daily@) == with_messages(start, mv.take(i as int)),
        decreases ms.len() - i,
    {
        proof {
            assert(mv.take(i + 1).drop_last() == mv.take(i as int));
            assert(mv.take(i + 1).last() == (ms@[i as int].0@, ms@[i as int].1));
        }
        let cur = day_counts(daily, &ms[i].0);
        put_value(
            daily,
            ms[i].0.clone(),
            DayCounts { messages: cur.messages.wrapping_add(ms[i].1), ..cur },
        );
        i = i + 1;
    }
    proof {
        assert(mv.take(ms.len() as int) == mv);
    }
}

/// Adds the new sessions to the days.
fn add_sessions(daily: &mut Vec<(String, DayCounts)>, ss: &Vec<(String, Vec<String>)>)
    ensures
        tally_view(final(daily)@) == with_sessions(tally_view(old(daily)@), sessions_view(ss@)),
{
    let ghost start = tally_view(daily@);
    let ghost sv = sessions_view(ss@);
    let mut i: usize = 0;
    proof {
        assert(sv.take(0) =~= Seq::<(Seq<char>, Seq<Seq<char>>)>::empty());
    }
    while i < ss.len()
        invariant
            0 <= i <= ss.len(),
            sv == sessions_view(ss@),
            tally_view(daily@) == with_sessions(start, sv.take(i as int)),
        decreases ss.len() - i,
    {
        proof {
            assert(sv.take(i + 1).drop_last() == sv.take(i as int));
            assert(sv.take(i + 1).last() == (ss@[i as int].0@, texts_view(ss@[i as int].1@)));
        }
        let cur = day_counts(daily, &ss[i].0);
        let n = ss[i].1.len() as i64;
        put_value(daily, ss[i].0.clone(), DayCounts { sessions: cur.sessions.wrapping_add(n), ..cur });
        i = i + 1;
    }
    proof {
        assert(sv.take(ss.len() as int) == sv);
    }
}

/// Adds the new tool calls to the days.
fn add_tools(daily: &mut Vec<(String, DayCounts)>, ts: &Vec<(String, i64)>)
    ensures
        tally_view(final(daily)@) == with_tools(tally_view(old(daily)@), tally_view(ts@)),
{
    let ghost start = tally_view(daily@);
    let ghost tv = tally_view(ts@);
    let mut i: usize = 0;
    proof {
        assert(tv.take(0) =~= Seq::<(Seq<char>, i64)>::empty());
    }
    while i < ts.len()
        invariant
            0 <= i <= ts.len(),
            tv == tally_view(ts@),
            tally_view(daily@) == with_tools(start, tv.take(i as int)),
        decreases ts.len() - i,
    {
        proof {
            assert(tv.take(i + 1).drop_last() == tv.take(i as int));
            assert(tv.take(i + 1).last() == (ts@[i as int].0@, ts@[i as int].1));
        }
        let cur = day_counts(daily, &ts[i].0);
        put_value(daily, ts[i].0.clone(), DayCounts { tools: cur.tools.wrapping_add(ts[i].1), ..cur });
        i = i + 1;
    }
    proof {
        assert(tv.take(ts.len() as int) == tv);
    }
}

/// The output tokens per model that the stats cache holds.
fn read_cached_models(c: &Option<Json>) -> (r: Vec<(String, i64)>)
    ensures
        tally_view(r@) == cache_models(opt_view(*c)),
{
    let usage = get(c, "modelUsage");
    let mut rows: Vec<(String, i64)> = Vec::new();
    proof {
        assert(tally_view(rows@) =~= Seq::<(Seq<char>, i64)>::empty());
    }
    match &usage {
        Some(Json::Object(fields)) => {
            let ghost fv = crate::json::fields_view(fields@);
            let mut i: usize = 0;
            proof {
                assert(fv.take(0) =~= Seq::<(Seq<char>, Seq<char>)>::empty());
            }
            while i < fields.len()
                invariant
                    0 <= i <= fields.len(),
                    fv == crate::json::fields_view(fields@),
                    tally_view(rows@) == model_fields(fv.take(i as int)),
                decreases fields.len() - i,
            {
                proof {
                    assert(fv.take(i + 1).drop_last() == fv.take(i as int));
                    assert(fv.take(i + 1).last() == (fields@[i as int].0@, fields@[i as int].1@));
                }
                let values = read_json(fields[i].1.as_str());
                let tokens = number_or_zero(&get(&values, "outputTokens"));
                put_value(&mut rows, fields[i].0.clone(), tokens);
                i = i + 1;
            }
            proof {
                assert(fv.take(fields.len() as int) == fv);
            }
        },
        _ => {},
    }
    rows
}

/// Adds each count to the rows.
pub fn add_all(rows: &mut Vec<(String, i64)>, ms: &Vec<(String, i64)>)
    ensures
        tally_view(final(rows)@) == add_counts(tally_view(old(rows)@), tally_view(ms@)),
{
    let ghost start = tally_view(rows@);
    let ghost mv = tally_view(ms@);
    let mut i: usize = 0;
    proof {
        assert(mv.take(0) =~= Seq::<(Seq<char>, i64)>::empty());
    }
    while i < ms.len()
        invariant
            0 <= i <= ms.len(),
            mv == tally_view(ms@),
            tally_view(rows@) == add_counts(start, mv.take(i as int)),
        decreases ms.len() - i,
    {
        proof {
            assert(mv.take(i + 1).drop_last() == mv.take(i as int));
            assert(mv.take(i + 1).last() == (ms@[i as int].0@, ms@[i as int].1));
        }
        add_to(rows, ms[i].0.clone(), ms[i].1);
        i = i + 1;
    }
    proof {
        assert(mv.take(ms.len() as int) == mv);
    }
}

/// The sum of the counts, wrapping.
fn total(ms: &Vec<(String, i64)>) -> (r: i64)
    ensures
        r == sum_counts(tally_view(ms@)),
{
    let ghost mv = tally_view(ms@);
    let mut sum: i64 = 0;
    let mut i: usize = 0;
    proof {
        assert(mv.take(0) =~= Seq::<(Seq<char>, i64)>::empty());
    }
    while i < ms.len()
        invariant
            0 <= i <= ms.len(),
            mv == tally_view(ms@),
            sum == sum_counts(mv.take(i as int)),
        decreases ms.len() - i,
    {
        proof {
            assert(mv.take(i + 1).drop_last() == mv.take(i as int));
            assert(mv.take(i + 1).last() == (ms@[i as int].0@, ms@[i as int].1));
        }
        sum = sum.wrapping_add(ms[i].1);
        i = i + 1;
    }
    proof {
        assert(mv.take(ms.len() as int) == mv);
    }
    sum
}

/// The number of distinct sessions over all dates, wrapping.
fn total_sessions(ss: &Vec<(String, Vec<String>)>) -> (r: i64)
    ensures
        r == sum_sessions(sessions_view(ss@)),
{
    let ghost sv = sessions_view(ss@);
    let mut sum: i64 = 0;
    let mut i: usize = 0;
    proof {
        assert(sv.take(0) =~= Seq::<(Seq<char>, Seq<Seq<char>>)>::empty());
    }
    while i < ss.len()
        invariant
            0 <= i <= ss.len(),
            sv == sessions_view(ss@),
            sum == sum_sessions(sv.take(i as int)),
        decreases ss.len() - i,
    {
        proof {
            assert(sv.take(i + 1).drop_last() == sv.take(i as int));
            assert(sv.take(i + 1).last() == (ss@[i as int].0@, texts_view(ss@[i as int].1@)));
        }
        sum = sum.wrapping_add(ss[i].1.len() as i64);
        i = i + 1;
    }
    proof {
        assert(sv.take(ss.len() as int) == sv);
    }
    sum
}

/// The stats cache's value.
fn cache_json(cache_text: &Option<String>) -> (r: Option<Json>)
    ensures
        opt_view(r) == cache_value(opt_text(*cache_text)),
{
    match cache_text {
        Some(t) => read_json(t.as_str()),
        None => None,
    }
}

/// The date up to which the stats cache was computed.
fn last_date(c: &Option<Json>) -> (r: Vec<char>)
    ensures
        r@ == cache_last(opt_view(*c)),
{
    match get_str(&get(c, "lastComputedDate")) {
        Some(d) => chars_of(d.as_str()),
        None => chars_of("2000-01-01"),
    }
}

/// The date up to which the stats cache (given as its text) was computed.
pub fn covered_until(cache_text: &Option<String>) -> (r: Vec<char>)
    ensures
        r@ == cache_last(cache_value(opt_text(*cache_text))),
{
    last_date(&cache_json(cache_text))
}

/// Whether some line of a transcript that would be read has a timestamp that would be cut
/// inside a character: on such input the statistics cannot be computed.
pub fn stats_input_panics(cache_text: &Option<String>, files: &Vec<SessionFile>) -> (r: bool)
    ensures
        r == files_panic(files_view(files@), cache_last(cache_value(opt_text(*cache_text)))),
{
    let c = cache_json(cache_text);
    let last = last_date(&c);
    let ghost fv = files_view(files@);
    let mut i: usize = 0;
    while i < files.len()
        invariant
            0 <= i <= files.len(),
            fv == files_view(files@),
            last@ == cache_last(cache_value(opt_text(*cache_text))),
            forall|a: int, j: int|
                0 <= a < i && file_kept(fv[a].0, last@) && 0 <= j < split_lines(fv[a].1).len()
                    ==> !#[trigger] line_panics(#[trigger] split_lines(fv[a].1)[j]),
        decreases files.len() - i,
    {
        proof {
            assert(fv[i as int] == (files@[i as int].modified_secs, files@[i as int].contents@));
        }
        if transcript_is_read(files[i].modified_secs, &last) && transcript_panics(
            files[i].contents.as_str(),
        ) {
            proof {
                let j = choose|j: int|
                    0 <= j < split_lines(fv[i as int].1).len() && #[trigger] line_panics(
                        split_lines(fv[i as int].1)[j],
                    );
                assert(0 <= i < fv.len() && file_kept(fv[i as int].0, last@) && 0 <= j
                    < split_lines(fv[i as int].1).len() && line_panics(split_lines(fv[i as int].1)[j]));
            }
            return true;
        }
        i = i + 1;
    }
    false
}

/// The statistics from the stats cache's text (`None` when it cannot be read), the
/// session transcripts and the current time (seconds since 1970).
pub fn get_stats(cache_text: &Option<String>, files: &Vec<SessionFile>, now_secs: i64) -> (r:
    ProviderStats)
    requires
        !files_panic(files_view(files@), cache_last(cache_value(opt_text(*cache_text)))),
    ensures
        claude_stats_hold(r@, opt_text(*cache_text), files_view(files@), now_secs as int),
{
    let c = cache_json(cache_text);
    let last = last_date(&c);
    let d = scan_transcripts(files, &last);
    let mut daily = read_cached_days(&c);
    add_messages(&mut daily, &d.messages);
    add_sessions(&mut daily, &d.sessions);
    add_tools(&mut daily, &d.tools);
    let ghost dv = tally_view(daily@);
    proof {
        lemma_daily_unique(opt_view(c), d@);
    }
    let mut rows: Vec<(String, i64)> = Vec::new();
    let mut i: usize = 0;
    while i < daily.len()
        invariant
            0 <= i <= daily.len(),
            dv == tally_view(daily@),
            rows@.len() == i,
            tally_view(rows@) == message_rows(dv).take(i as int),
        decreases daily.len() - i,
    {
        let ghost prev = tally_view(rows@);
        rows.push((daily[i].0.clone(), daily[i].1.messages));
        proof {
            assert forall|q: int| 0 <= q < i implies #[trigger] tally_view(rows@)[q]
                == message_rows(dv).take(i + 1)[q] by {
                assert(prev[q] == message_rows(dv).take(i as int)[q]);
            }
            assert(tally_view(rows@)[i as int] == message_rows(dv)[i as int]);
            assert(tally_view(rows@) =~= message_rows(dv).take(i + 1));
        }
        i = i + 1;
    }
    proof {
        assert(message_rows(dv).take(daily.len() as int) =~= message_rows(dv));
    }
    let sorted = sort_by_key(&rows);
    let ghost sv = tally_view(sorted@);
    let start: usize = if sorted.len() > 14 { sorted.len() - 14 } else { 0 };
    let mut daily14: Vec<ActivityPoint> = Vec::new();
    let mut j: usize = start;
    while j < sorted.len()
        invariant
            start <= j <= sorted.len(),
            sv == tally_view(sorted@),
            daily14@.len() == j - start,
            points_view(daily14@) == sv.subrange(start as int, j as int),
        decreases sorted.len() - j,
    {
        let ghost prev = points_view(daily14@);
        daily14.push(ActivityPoint { date: sorted[j].0.clone(), value: sorted[j].1 });
        proof {
            assert forall|q: int| 0 <= q < j - start implies #[trigger] points_view(daily14@)[q] == sv.subrange(start as int, j + 1)[q] by {
                assert(prev[q] == sv.subrange(start as int, j as int)[q]);
            }
            assert(sv[j as int] == (sorted@[j as int].0@, sorted@[j as int].1));
            assert(points_view(daily14@) =~= sv.subrange(
                start as int,
                j + 1,
            ));
        }
        j = j + 1;
    }
    proof {
        assert(sv.subrange(start as int, sorted.len() as int) =~= last14(sv));
    }
    let today = date_from_secs(now_secs);
    let counts = day_counts(&daily, &today);
    let mut models = read_cached_models(&c);
    add_all(&mut models, &d.models);
    let ranked = sort_by_value_desc(&models);
    let ghost rv = tally_view(ranked@);
    let mut breakdown: Vec<BreakdownRow> = Vec::new();
    let mut k: usize = 0;
    while k < ranked.len()
        invariant
            0 <= k <= ranked.len(),
            rv == tally_view(ranked@),
            breakdown@.len() == k,
            rows_view(breakdown@) == rv.take(k as int),
        decreases ranked.len() - k,
    {
        let ghost prev = rows_view(breakdown@);
        breakdown.push(BreakdownRow { key: ranked[k].0.clone(), value: ranked[k].1 });
        proof {
            assert forall|q: int| 0 <= q < k implies #[trigger] rows_view(breakdown@)[q] == rv.take(k + 1)[q] by {
                assert(prev[q] == rv.take(k as int)[q]);
            }
            assert(rv[k as int] == (ranked@[k as int].0@, ranked@[k as int].1));
            assert(rows_view(breakdown@) =~= rv.take(k + 1));
        }
        k = k + 1;
    }
    proof {
        assert(rv.take(ranked.len() as int) =~= rv);
    }
    let sessions_total = number_or_zero(&get(&c, "totalSessions")).wrapping_add(
        total_sessions(&d.sessions),
    );
    let messages_total = number_or_zero(&get(&c, "totalMessages")).wrapping_add(total(&d.messages));
    let mut first = signed_decimal_chars(sessions_total);
    append_str(&mut first, " sessions");
    let mut second = signed_decimal_chars(messages_total);
    append_str(&mut second, " messages");
    let mut footer: Vec<String> = Vec::new();
    footer.push(string_of_vec(&first));
    footer.push(string_of_vec(&second));
    let since = match get_str(&get(&c, "firstSessionDate")) {
        Some(f) => Some(string_of_vec(&take_chars(&chars_of(f.as_str()), 10))),
        None => None,
    };
    let mut metrics: Vec<SummaryMetric> = Vec::new();
    metrics.push(SummaryMetric { label: "Messages".to_owned(), value: counts.messages });
    metrics.push(SummaryMetric { label: "Sessions".to_owned(), value: counts.sessions });
    metrics.push(SummaryMetric { label: "Tools".to_owned(), value: counts.tools });
    let r = ProviderStats {
        provider: ProviderId::Claude,
        metrics,
        activity_label: "14-Day Activity".to_owned(),
        daily14,
        breakdown_label: "Tokens by Model".to_owned(),
        breakdown,
        footer,
        since,
        data_scope: None,
        last_updated: today,
    };
    proof {
        assert(r@.metrics =~= seq![
            ("Messages"@, counts.messages),
            ("Sessions"@, counts.sessions),
            ("Tools"@, counts.tools),
        ]);
        assert(r@.footer =~= seq![
            signed_decimal(sessions_total as int) + " sessions"@,
            signed_decimal(messages_total as int) + " messages"@,
        ]);
        assert(r@.daily14 == last14(sv));
        assert(key_sorted(sv) && sv.to_multiset() == message_rows(dv).to_multiset()
            && r@.daily14 == last14(sv));
    }
    r
}

} // verus!
