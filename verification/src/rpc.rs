//! The Codex app-server's JSON-RPC exchange as the library decides it: which line answers a
//! request, the request ids, the one restart after a failed request, the executable to run and
//! the tail of its error output.
use vstd::prelude::*;
use crate::json::{as_u64, field_text, get, get_u64, member, read, read_json, Json, JsonView};
use crate::providers::opt_text;
use crate::text::{append_str, chars_of, string_of_vec};

verus! {

/// The id of a JSON-RPC message; notifications have none.
pub open spec fn message_id(m: JsonView) -> Option<u64> {
    as_u64(member(Some(m), "id"@))
}

/// The id of a message (`id` as a non-negative integer).
pub fn response_id(message: &Json) -> (r: Option<u64>)
    ensures
        r == message_id(message@),
{
    let m = Some(message.clone_json());
    get_u64(&get(&m, "id"))
}

/// What a line from the app-server means for the request with id `id`.
#[derive(Debug)]
pub enum Reply {
    /// Not JSON, or not the answer to this request.
    Skip,
    /// The request failed with this message.
    Failed(String),
    /// The request's result.
    Answered(Json),
}

/// The view of a reply.
pub enum ReplyView {
    Skip,
    Failed(Seq<char>),
    Answered(JsonView),
}

/// The raw text of member `key` of an object.
pub open spec fn member_raw(m: JsonView, key: Seq<char>) -> Option<Seq<char>> {
    match m {
        JsonView::Object(fields) => field_text(fields, key),
        _ => None,
    }
}

/// A line answers request `id` when it is JSON with that id: with an `error` member (whatever
/// its value) the request failed, quoting it; otherwise its `result` is the answer.
pub open spec fn reply_to(line: Seq<char>, id: u64) -> ReplyView {
    match read(line) {
        None => ReplyView::Skip,
        Some(m) => if message_id(m) != Some(id) {
            ReplyView::Skip
        } else {
            match member_raw(m, "error"@) {
                Some(e) => ReplyView::Failed("Codex app-server returned an error: "@ + e),
                None => match member(Some(m), "result"@) {
                    Some(v) => ReplyView::Answered(v),
                    None => ReplyView::Failed("Codex app-server response had no result"@),
                },
            }
        },
    }
}

/// The view of a reply.
pub open spec fn reply_view(r: Reply) -> ReplyView {
    match r {
        Reply::Skip => ReplyView::Skip,
        Reply::Failed(e) => ReplyView::Failed(e@),
        Reply::Answered(v) => ReplyView::Answered(v@),
    }
}

/// What a line from the app-server means for request `id`.
pub fn reply_for(line: &str, id: u64) -> (r: Reply)
    ensures
        reply_view(r) == reply_to(line@, id),
{
    let m = read_json(line);
    let message = match m {
        Some(message) => message,
        None => return Reply::Skip,
    };
    if response_id(&message) != Some(id) {
        return Reply::Skip;
    }
    match message.member_text("error") {
        Some(e) => {
            let mut text = chars_of("Codex app-server returned an error: ");
            append_str(&mut text, e.as_str());
            Reply::Failed(string_of_vec(&text))
        },
        None => match message.member("result") {
            Some(v) => Reply::Answered(v),
            None => Reply::Failed("Codex app-server response had no result".to_owned()),
        },
    }
}

/// How long a request may wait for its answer in all, in milliseconds, whatever other lines
/// the app-server writes meanwhile.
pub const RESPONSE_TIMEOUT_MS: u64 = 8000;

/// What is left of a request's time after `elapsed_ms` milliseconds: the most the wait for
/// the next line may take.
pub fn remaining_wait_ms(elapsed_ms: u64) -> (r: u64)
    ensures
        r == (if elapsed_ms < RESPONSE_TIMEOUT_MS {
            RESPONSE_TIMEOUT_MS - elapsed_ms
        } else {
            0
        }),
{
    if elapsed_ms < RESPONSE_TIMEOUT_MS {
        RESPONSE_TIMEOUT_MS - elapsed_ms
    } else {
        0
    }
}

/// What follows a wait for the app-server's next line.
#[derive(Debug)]
pub enum WaitStep {
    /// Wait for another line.
    Wait,
    /// The request is over, with this result.
    Done(Result<Json, String>),
}

/// One step of waiting for the answer to request `id`: `received` is the next line, or the
/// error of a wait that ran out; `elapsed_ms` is the time since the request went out, and
/// `stderr` the error output kept so far. An answer or a failure ends the wait; a line that
/// does not answer the request is passed over while the request has time left, and ends the
/// wait as silence once its time is used up; a wait that ran out ends it as silence. Silence
/// is reported with a message that quotes the error output.
pub fn wait_step(received: Result<String, String>, elapsed_ms: u64, id: u64, stderr: &Vec<String>) -> (r:
    WaitStep)
    ensures
        match received {
            Err(e) => r matches WaitStep::Done(Err(m)) && m@ == silence_message(
                e@,
                crate::json::texts_view(stderr@),
            ),
            Ok(line) => match reply_to(line@, id) {
                ReplyView::Skip => if elapsed_ms < RESPONSE_TIMEOUT_MS {
                    r is Wait
                } else {
                    r matches WaitStep::Done(Err(m)) && m@ == silence_message(
                        "timed out waiting on channel"@,
                        crate::json::texts_view(stderr@),
                    )
                },
                ReplyView::Failed(m) => r matches WaitStep::Done(Err(f)) && f@ == m,
                ReplyView::Answered(v) => r matches WaitStep::Done(Ok(w)) && w@ == v,
            },
        },
        elapsed_ms >= RESPONSE_TIMEOUT_MS ==> !(r is Wait),
{
    match received {
        Err(e) => WaitStep::Done(Err(no_response_message(e.as_str(), stderr))),
        Ok(line) => match reply_for(line.as_str(), id) {
            Reply::Skip => if elapsed_ms < RESPONSE_TIMEOUT_MS {
                WaitStep::Wait
            } else {
                WaitStep::Done(Err(no_response_message("timed out waiting on channel", stderr)))
            },
            Reply::Failed(m) => WaitStep::Done(Err(m)),
            Reply::Answered(v) => WaitStep::Done(Ok(v)),
        },
    }
}

/// The ids of the requests of one app-server process.
#[derive(Debug)]
pub struct RequestIds {
    pub next_id: u64,
}

impl RequestIds {
    /// Ids start at 1.
    pub fn new() -> (r: RequestIds)
        ensures
            r.next_id == 1,
    {
        RequestIds { next_id: 1 }
    }

    /// The id of the next request; each id is one more than the one before.
    pub fn next_request_id(&mut self) -> (r: u64)
        requires
            old(self).next_id < u64::MAX,
        ensures
            r == old(self).next_id,
            final(self).next_id == old(self).next_id + 1,
    {
        let id = self.next_id;
        self.next_id = self.next_id + 1;
        id
    }
}

/// What follows an attempt at a request.
#[derive(Debug)]
pub enum AttemptStep {
    /// The request is over, with this result.
    Done(Result<Json, String>),
    /// Stop the app-server, start a fresh one and try once more.
    Restart,
}

/// A request is tried at most twice: a first failure restarts the app-server, a second one
/// stands; a success ends it at once.
pub fn after_attempt(attempt: u32, outcome: Result<Json, String>) -> (r: AttemptStep)
    ensures
        match outcome {
            Ok(v) => r matches AttemptStep::Done(Ok(w)) && w@ == v@,
            Err(e) => if attempt == 0 {
                r is Restart
            } else {
                r matches AttemptStep::Done(Err(f)) && f@ == e@
            },
        },
{
    match outcome {
        Ok(v) => AttemptStep::Done(Ok(v)),
        Err(e) => if attempt == 0 {
            AttemptStep::Restart
        } else {
            AttemptStep::Done(Err(e))
        },
    }
}

/// Where the Codex CLI may be installed, in the order they are tried: `CODEX_BIN` when set,
/// then Homebrew, `/usr/local` and the ChatGPT app.
pub open spec fn codex_candidates_of(env_bin: Option<Seq<char>>) -> Seq<Seq<char>> {
    (match env_bin {
        Some(b) => seq![b],
        None => Seq::empty(),
    }) + seq![
        "/opt/homebrew/bin/codex"@,
        "/usr/local/bin/codex"@,
        "/Applications/ChatGPT.app/Contents/Resources/codex"@,
    ]
}

/// The places to look for the Codex CLI.
pub fn codex_candidates(env_bin: Option<String>) -> (r: Vec<String>)
    ensures
        crate::json::texts_view(r@) == codex_candidates_of(opt_text(env_bin)),
{
    let mut out: Vec<String> = Vec::new();
    let ghost head = match opt_text(env_bin) {
        Some(b) => seq![b],
        None => Seq::<Seq<char>>::empty(),
    };
    match env_bin {
        Some(b) => out.push(b),
        None => {},
    }
    out.push("/opt/homebrew/bin/codex".to_owned());
    out.push("/usr/local/bin/codex".to_owned());
    out.push("/Applications/ChatGPT.app/Contents/Resources/codex".to_owned());
    proof {
        assert(crate::json::texts_view(out@) =~= codex_candidates_of(opt_text(env_bin)));
    }
    out
}

/// The first candidate that is a file; `codex` (found on the search path) when none is.
pub open spec fn executable_of(candidates: Seq<Seq<char>>, present: Seq<bool>) -> Seq<char>
    decreases candidates.len(),
{
    if candidates.len() == 0 || present.len() == 0 {
        "codex"@
    } else if present[0] {
        candidates[0]
    } else {
        executable_of(candidates.drop_first(), present.drop_first())
    }
}

/// The executable to start, given which candidates are files.
pub fn pick_executable(candidates: &Vec<String>, present: &Vec<bool>) -> (r: String)
    ensures
        r@ == executable_of(crate::json::texts_view(candidates@), present@),
{
    let ghost cv = crate::json::texts_view(candidates@);
    let mut i: usize = 0;
    proof {
        assert(cv.skip(0) == cv);
        assert(present@.skip(0) == present@);
    }
    while i < candidates.len() && i < present.len()
        invariant
            0 <= i <= candidates.len(),
            i <= present.len(),
            cv == crate::json::texts_view(candidates@),
            executable_of(cv, present@) == executable_of(cv.skip(i as int), present@.skip(i as int)),
        decreases candidates.len() - i,
    {
        proof {
            assert(cv.skip(i as int)[0] == cv[i as int]);
            assert(present@.skip(i as int)[0] == present@[i as int]);
            assert(cv.skip(i as int).drop_first() == cv.skip(i + 1));
            assert(present@.skip(i as int).drop_first() == present@.skip(i + 1));
        }
        if present[i] {
            return candidates[i].clone();
        }
        i = i + 1;
    }
    proof {
        assert(cv.skip(i as int).len() == 0 || present@.skip(i as int).len() == 0);
    }
    "codex".to_owned()
}

/// The app-server's error output kept for messages: its last eight lines.
pub open spec fn recent_lines(old: Seq<Seq<char>>, line: Seq<char>) -> Seq<Seq<char>> {
    let all = old.push(line);
    if all.len() > 8 {
        all.drop_first()
    } else {
        all
    }
}

/// Keeps one more line of error output, dropping the oldest beyond eight.
pub fn keep_recent(lines: &mut Vec<String>, line: String)
    ensures
        crate::json::texts_view(final(lines)@) == recent_lines(
            crate::json::texts_view(old(lines)@),
            line@,
        ),
{
    let ghost before = crate::json::texts_view(lines@);
    lines.push(line);
    proof {
        assert(crate::json::texts_view(lines@) =~= before.push(line@));
    }
    if lines.len() > 8 {
        let ghost all = crate::json::texts_view(lines@);
        lines.remove(0);
        proof {
            assert(crate::json::texts_view(lines@) =~= all.drop_first());
        }
    }
}

/// The lines joined with single spaces.
pub open spec fn joined(lines: Seq<Seq<char>>) -> Seq<char>
    decreases lines.len(),
{
    if lines.len() == 0 {
        Seq::empty()
    } else if lines.len() == 1 {
        lines[0]
    } else {
        joined(lines.drop_last()) + " "@ + lines.last()
    }
}

/// The message for an app-server that did not answer: the wait's error, then the kept error
/// output in parentheses when there is any.
pub open spec fn silence_message(error: Seq<char>, stderr: Seq<Seq<char>>) -> Seq<char> {
    let text = joined(stderr);
    "Codex app-server did not respond: "@ + error + if text.len() > 0 {
        " ("@ + text + ")"@
    } else {
        Seq::empty()
    }
}

/// The message for an app-server that did not answer in time.
pub fn no_response_message(error: &str, stderr: &Vec<String>) -> (r: String)
    ensures
        r@ == silence_message(error@, crate::json::texts_view(stderr@)),
{
    let ghost sv = crate::json::texts_view(stderr@);
    let mut text: Vec<char> = Vec::new();
    let mut i: usize = 0;
    proof {
        assert(sv.take(0) =~= Seq::<Seq<char>>::empty());
    }
    while i < stderr.len()
        invariant
            0 <= i <= stderr.len(),
            sv == crate::json::texts_view(stderr@),
            text@ == joined(sv.take(i as int)),
        decreases stderr.len() - i,
    {
        proof {
            assert(sv.take(i + 1).drop_last() == sv.take(i as int));
            assert(sv.take(i + 1).last() == stderr@[i as int]@);
        }
        if i > 0 {
            append_str(&mut text, " ");
        }
        append_str(&mut text, stderr[i].as_str());
        proof {
            if i == 0 {
                assert(sv.take(1) =~= seq![stderr@[0]@]);
                assert(text@ =~= Seq::<char>::empty() + stderr@[0]@);
            }
        }
        i = i + 1;
    }
    proof {
        assert(sv.take(stderr.len() as int) == sv);
    }
    let mut message = chars_of("Codex app-server did not respond: ");
    append_str(&mut message, error);
    if text.len() > 0 {
        append_str(&mut message, " (");
        crate::text::append_chars(&mut message, &text);
        append_str(&mut message, ")");
    }
    string_of_vec(&message)
}

} // verus!
