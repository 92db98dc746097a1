//! The think-cycle controller's decision core: the tool-round loop as a
//! state machine, the retry policy, the inbound command surface, cycle
//! bookkeeping (planning cadence, research tracking), the conversational
//! rendezvous, and activity classification. The surrounding program
//! performs the network and process work these decisions call for.

use vstd::prelude::*;
use vstd::string::StringExecFns;

use crate::types::{ActivityData, BrainCommand, BrainState};

verus! {

/// How many cycles pass between planning phases.
pub const PLAN_INTERVAL: u32 = 10;

/// Seconds a conversational rendezvous waits for a reply.
pub const CONVERSATION_TIMEOUT_SECS: u64 = 15;

// ---------------------------------------------------------------------------
// Retry policy
// ---------------------------------------------------------------------------

/// One retry policy value shared by the call sites that need it: how many
/// attempts in all, and the fixed delay between them.
#[derive(Clone, Copy, Debug)]
pub struct RetryPolicy {
    pub max_attempts: u32,
    pub delay_secs: u64,
}

/// The policy both reasoning call sites use: one retry after a fixed
/// two-second delay.
pub fn default_retry_policy() -> (r: RetryPolicy)
    ensures
        r.max_attempts == 2,
        r.delay_secs == 2,
{
    RetryPolicy { max_attempts: 2, delay_secs: 2 }
}

/// Transient failures are retried; everything else is fatal for the call.
#[derive(Clone, Copy, Debug, PartialEq, Eq, Structural)]
pub enum ErrorClass {
    Transient,
    Fatal,
}

/// Classify an HTTP status: the 5xx class is transient, all other
/// non-success statuses are fatal for that call.
pub fn classify_status(status: u16) -> (r: ErrorClass)
    ensures
        r == (if 500 <= status <= 599 {
            ErrorClass::Transient
        } else {
            ErrorClass::Fatal
        }),
{
    if 500 <= status && status <= 599 {
        ErrorClass::Transient
    } else {
        ErrorClass::Fatal
    }
}

/// May another attempt be made after `attempts` tries ended in `class`?
pub fn should_retry(policy: RetryPolicy, attempts: u32, class: ErrorClass) -> (r: bool)
    ensures
        r == (class is Transient && attempts < policy.max_attempts),
{
    match class {
        ErrorClass::Transient => attempts < policy.max_attempts,
        ErrorClass::Fatal => false,
    }
}

// ---------------------------------------------------------------------------
// The tool-round loop
// ---------------------------------------------------------------------------

/// What the driver should do next with the tool loop.
#[derive(Clone, Copy, Debug, PartialEq, Eq, Structural)]
pub enum LoopAction {
    /// Run the pending tool calls, then make the follow-up reasoning call.
    RunToolsThenCall,
    /// Repeat the last reasoning call once, after the fixed delay.
    RetryCall,
    /// The cycle's reasoning is finished; record the final text.
    Finish,
    /// The round limit was hit; log a warning and stop the loop.
    FinishRoundLimit,
    /// A call failed permanently; emit an error event and abort the cycle.
    FinishError,
}

/// The tool-calling protocol loop of one think cycle, as a state machine.
/// The counter resets every cycle (a fresh value is made per cycle) and is
/// bounded by the configured maximum.
pub struct ToolLoop {
    /// Configured bound on tool rounds.
    pub max_rounds: u32,
    /// Tool rounds executed so far this cycle.
    pub rounds_used: u32,
    /// Reasoning calls made so far this cycle.
    pub calls_made: u32,
    /// Whether the single transient retry has been spent.
    pub retried: bool,
    /// Whether the loop has reached a terminal state.
    pub done: bool,
}

impl ToolLoop {
    /// The loop's invariant: rounds stay within the bound and every
    /// reasoning call is accounted for by the opening call, one call per
    /// round, and at most one retry.
    pub open spec fn wf(&self) -> bool {
        &&& self.max_rounds <= 1000000000
        &&& self.rounds_used <= self.max_rounds
        &&& self.calls_made <= 1 + self.rounds_used + (if self.retried {
            1int
        } else {
            0int
        })
    }

    /// Begin a cycle's tool loop; the driver has just made the opening
    /// reasoning call.
    pub fn begin(max_rounds: u32) -> (r: ToolLoop)
        requires
            max_rounds <= 1000000000,
        ensures
            r.wf(),
            r.max_rounds == max_rounds,
            r.rounds_used == 0,
            r.calls_made == 1,
            !r.retried,
            !r.done,
    {
        ToolLoop { max_rounds, rounds_used: 0, calls_made: 1, retried: false, done: false }
    }

    /// A reasoning call came back. With tool calls pending, either another
    /// round begins (and the follow-up call is counted) or the round limit
    /// ends the loop; with none, the loop finishes.
    pub fn on_reply(&mut self, has_tool_calls: bool) -> (a: LoopAction)
        requires
            old(self).wf(),
            !old(self).done,
        ensures
            final(self).wf(),
            final(self).max_rounds == old(self).max_rounds,
            final(self).retried == old(self).retried,
            !has_tool_calls ==> a == LoopAction::Finish && final(self).done && final(self).calls_made == old(self).calls_made,
            has_tool_calls && old(self).rounds_used == old(self).max_rounds ==> a
                == LoopAction::FinishRoundLimit && final(self).done && final(self).calls_made
                == old(self).calls_made,
            has_tool_calls && old(self).rounds_used < old(self).max_rounds ==> a
                == LoopAction::RunToolsThenCall && !final(self).done && final(self).rounds_used
                == old(self).rounds_used + 1 && final(self).calls_made == old(self).calls_made
                + 1,
    {
        if !has_tool_calls {
            self.done = true;
            LoopAction::Finish
        } else if self.rounds_used == self.max_rounds {
            self.done = true;
            LoopAction::FinishRoundLimit
        } else {
            self.rounds_used = self.rounds_used + 1;
            self.calls_made = self.calls_made + 1;
            LoopAction::RunToolsThenCall
        }
    }

    /// A reasoning call failed. A transient failure is retried exactly
    /// once (counting one more call); any other failure, or a second
    /// transient one, ends the cycle's reasoning with an error.
    pub fn on_failure(&mut self, transient: bool) -> (a: LoopAction)
        requires
            old(self).wf(),
            !old(self).done,
        ensures
            final(self).wf(),
            final(self).max_rounds == old(self).max_rounds,
            final(self).rounds_used == old(self).rounds_used,
            transient && !old(self).retried ==> a == LoopAction::RetryCall && !final(self).done
                && final(self).retried && final(self).calls_made == old(self).calls_made + 1,
            (!transient || old(self).retried) ==> a == LoopAction::FinishError && final(self).done && final(self).calls_made == old(self).calls_made,
    {
        if transient && !self.retried {
            self.retried = true;
            self.calls_made = self.calls_made + 1;
            LoopAction::RetryCall
        } else {
            self.done = true;
            LoopAction::FinishError
        }
    }
}

/// The tool-round loop makes at most `max_tool_rounds + 1` reasoning calls
/// when every call succeeds, however many tool calls the model keeps
/// requesting, and at most one more when the single transient retry was
/// spent.
pub proof fn lemma_tool_loop_call_bound(st: ToolLoop)
    requires
        st.wf(),
    ensures
        !st.retried ==> st.calls_made <= st.max_rounds + 1,
        st.calls_made <= st.max_rounds + 2,
{
}

// ---------------------------------------------------------------------------
// Cycle bookkeeping and the command surface
// ---------------------------------------------------------------------------

/// The scheduler's own mutable state: everything the think-cycle loop
/// decides with, owned exclusively by one agent's scheduling unit.
pub struct Controller {
    /// The phase the agent is in.
    pub state: BrainState,
    /// Completed thoughts.
    pub thought_count: u32,
    /// Cycles since the last planning phase.
    pub cycles_since_plan: u32,
    /// Consecutive cycles of research-only tool use with no new files.
    pub consecutive_research_cycles: u32,
    /// Focus mode, toggled from outside.
    pub focus_mode: bool,
    /// A user message waiting to override the next nudge.
    pub user_message: Option<String>,
    /// The latest pushed snapshot, if any.
    pub latest_snapshot: Option<String>,
    /// Whether a conversational rendezvous is outstanding.
    pub waiting_for_reply: bool,
    /// A reply delivered into the outstanding rendezvous.
    pub pending_reply: Option<String>,
    /// Set by Stop; the next cycle will not start.
    pub stop_requested: bool,
}

impl Controller {
    /// A fresh controller: idle, nothing counted, nothing pending.
    pub fn new() -> (r: Controller)
        ensures
            r.state is Idle,
            r.thought_count == 0,
            r.cycles_since_plan == 0,
            r.consecutive_research_cycles == 0,
            !r.focus_mode,
            r.user_message is None,
            r.latest_snapshot is None,
            !r.waiting_for_reply,
            r.pending_reply is None,
            !r.stop_requested,
    {
        Controller {
            state: BrainState::Idle,
            thought_count: 0,
            cycles_since_plan: 0,
            consecutive_research_cycles: 0,
            focus_mode: false,
            user_message: None,
            latest_snapshot: None,
            waiting_for_reply: false,
            pending_reply: None,
            stop_requested: false,
        }
    }

    /// Apply one inbound command. A conversation reply is delivered only
    /// into an outstanding rendezvous; one arriving with none outstanding
    /// (for instance after its timeout already resolved) is discarded.
    pub fn apply_command(&mut self, cmd: BrainCommand)
        ensures
            final(self).state == old(self).state,
            final(self).thought_count == old(self).thought_count,
            final(self).cycles_since_plan == old(self).cycles_since_plan,
            final(self).consecutive_research_cycles == old(self).consecutive_research_cycles,
            final(self).waiting_for_reply == old(self).waiting_for_reply,
            match cmd {
                BrainCommand::UserMessage(t) => final(self).user_message == Some(t) && final(self).focus_mode == old(self).focus_mode && final(self).latest_snapshot == old(self).latest_snapshot && final(self).pending_reply == old(self).pending_reply
                    && final(self).stop_requested == old(self).stop_requested,
                BrainCommand::ConversationReply(t) => final(self).user_message == old(self).user_message && final(self).focus_mode == old(self).focus_mode && final(self).latest_snapshot == old(self).latest_snapshot && final(self).stop_requested
                    == old(self).stop_requested && (if old(self).waiting_for_reply {
                    final(self).pending_reply == Some(t)
                } else {
                    final(self).pending_reply == old(self).pending_reply
                }),
                BrainCommand::SetFocusMode(b) => final(self).focus_mode == b && final(self).user_message == old(self).user_message && final(self).latest_snapshot == old(self).latest_snapshot && final(self).pending_reply == old(self).pending_reply
                    && final(self).stop_requested == old(self).stop_requested,
                BrainCommand::Snapshot(d) => final(self).latest_snapshot == Some(d) && final(self).user_message == old(self).user_message && final(self).focus_mode == old(self).focus_mode && final(self).pending_reply == old(self).pending_reply && final(self).stop_requested == old(self).stop_requested,
                BrainCommand::Stop => final(self).stop_requested && final(self).user_message
                    == old(self).user_message && final(self).focus_mode == old(self).focus_mode
                    && final(self).latest_snapshot == old(self).latest_snapshot && final(self).pending_reply == old(self).pending_reply,
            },
    {
        match cmd {
            BrainCommand::UserMessage(t) => {
                self.user_message = Some(t);
            },
            BrainCommand::ConversationReply(t) => {
                if self.waiting_for_reply {
                    self.pending_reply = Some(t);
                }
            },
            BrainCommand::SetFocusMode(b) => {
                self.focus_mode = b;
            },
            BrainCommand::Snapshot(d) => {
                self.latest_snapshot = Some(d);
            },
            BrainCommand::Stop => {
                self.stop_requested = true;
            },
        }
    }

    /// Open the single-use conversational rendezvous. At most one is
    /// outstanding per agent; opening while one is outstanding replaces it
    /// (the earlier wait then resolves empty), which is this
    /// implementation's documented choice for that unspecified case.
    pub fn open_rendezvous(&mut self)
        ensures
            final(self).waiting_for_reply,
            final(self).pending_reply is None,
            final(self).state == old(self).state,
            final(self).thought_count == old(self).thought_count,
            final(self).user_message == old(self).user_message,
            final(self).stop_requested == old(self).stop_requested,
    {
        self.waiting_for_reply = true;
        self.pending_reply = None;
    }

    /// Consume the rendezvous, exactly once, whatever the outcome: the
    /// delivered reply, or nothing after a timeout.
    pub fn resolve_rendezvous(&mut self) -> (r: Option<String>)
        ensures
            r == old(self).pending_reply,
            !final(self).waiting_for_reply,
            final(self).pending_reply is None,
            final(self).state == old(self).state,
            final(self).thought_count == old(self).thought_count,
            final(self).user_message == old(self).user_message,
            final(self).stop_requested == old(self).stop_requested,
    {
        let r = self.pending_reply.take();
        self.waiting_for_reply = false;
        r
    }

    /// Record how a think cycle ended: any newly created file resets the
    /// research counter; a research-only cycle with no new files raises it.
    pub fn note_cycle_outcome(&mut self, created_files: bool, did_research: bool)
        requires
            old(self).consecutive_research_cycles < u32::MAX,
        ensures
            final(self).consecutive_research_cycles == (if created_files {
                0int
            } else if did_research {
                old(self).consecutive_research_cycles + 1int
            } else {
                old(self).consecutive_research_cycles as int
            }),
            final(self).cycles_since_plan == old(self).cycles_since_plan,
            final(self).thought_count == old(self).thought_count,
            final(self).state == old(self).state,
    {
        if created_files {
            self.consecutive_research_cycles = 0;
        } else if did_research {
            self.consecutive_research_cycles = self.consecutive_research_cycles + 1;
        }
    }

    /// How urgently the agent should be nudged to write its research up:
    /// escalation at three and at five consecutive research-only cycles.
    pub fn research_nudge_level(&self) -> (r: u8)
        ensures
            r == (if self.consecutive_research_cycles >= 5 {
                2u8
            } else if self.consecutive_research_cycles >= 3 {
                1u8
            } else {
                0u8
            }),
    {
        if self.consecutive_research_cycles >= 5 {
            2
        } else if self.consecutive_research_cycles >= 3 {
            1
        } else {
            0
        }
    }

    /// Count a finished cycle toward the planning cadence.
    pub fn end_cycle_tick(&mut self)
        requires
            old(self).cycles_since_plan < u32::MAX,
        ensures
            final(self).cycles_since_plan == old(self).cycles_since_plan + 1,
            final(self).thought_count == old(self).thought_count,
            final(self).consecutive_research_cycles == old(self).consecutive_research_cycles,
    {
        self.cycles_since_plan = self.cycles_since_plan + 1;
    }

    /// Planning is due every `PLAN_INTERVAL` cycles.
    pub fn should_plan(&self) -> (r: bool)
        ensures
            r == (self.cycles_since_plan >= PLAN_INTERVAL),
    {
        self.cycles_since_plan >= PLAN_INTERVAL
    }

    /// A planning phase completed: the cadence restarts.
    pub fn on_plan_complete(&mut self)
        ensures
            final(self).cycles_since_plan == 0,
            final(self).thought_count == old(self).thought_count,
            final(self).consecutive_research_cycles == old(self).consecutive_research_cycles,
    {
        self.cycles_since_plan = 0;
    }

    /// Count a completed thought.
    pub fn count_thought(&mut self)
        requires
            old(self).thought_count < u32::MAX,
        ensures
            final(self).thought_count == old(self).thought_count + 1,
            final(self).cycles_since_plan == old(self).cycles_since_plan,
            final(self).consecutive_research_cycles == old(self).consecutive_research_cycles,
    {
        self.thought_count = self.thought_count + 1;
    }
}

// ---------------------------------------------------------------------------
// Activity classification
// ---------------------------------------------------------------------------

/// The first `k` characters of a text, with a trailing marker when it was
/// longer.
pub open spec fn clipped(s: Seq<char>, k: int) -> Seq<char> {
    if s.len() > k {
        s.subrange(0, k) + "..."@
    } else {
        s
    }
}

fn clip_chars(v: &[char], k: usize) -> (r: String)
    ensures
        r@ == clipped(v@, k as int),
{
    if v.len() > k {
        let head = vstd::slice::slice_subrange(v, 0, k);
        let mut s = copy_to_string(head);
        s.append("...");
        s
    } else {
        copy_to_string(v)
    }
}

fn copy_to_string(v: &[char]) -> (r: String)
    ensures
        r@ == v@,
{
    let mut out: Vec<char> = Vec::new();
    let mut i: usize = 0;
    while i < v.len()
        invariant
            i <= v@.len(),
            out@ == v@.subrange(0, i as int),
        decreases v@.len() - i,
    {
        out.push(v[i]);
        proof {
            assert(out@ =~= v@.subrange(0, i + 1));
        }
        i += 1;
    }
    proof {
        assert(out@ =~= v@);
    }
    crate::strutil::chars_to_string(&out)
}

/// What a shell command is "doing", as the activity feed describes it.
pub open spec fn shell_activity_kind(t: Seq<char>) -> int {
    if crate::strutil::has_char_prefix(t, "python"@) {
        0
    } else if crate::strutil::contains_char(t, '>') || crate::strutil::has_char_prefix(
        t,
        "tee "@,
    ) {
        1
    } else if crate::strutil::has_char_prefix(t, "cat "@) || crate::strutil::has_char_prefix(
        t,
        "head "@,
    ) || crate::strutil::has_char_prefix(t, "tail "@) || crate::strutil::has_char_prefix(
        t,
        "ls"@,
    ) || crate::strutil::has_char_prefix(t, "find "@) || crate::strutil::has_char_prefix(
        t,
        "grep "@,
    ) {
        2
    } else {
        3
    }
}

/// Classify a tool invocation for the activity feed. The shell tool's
/// command decides between running a script, writing, reading and plain
/// shell work; the detail text is clipped.
pub fn classify_activity(name: &str, detail: &str) -> (r: ActivityData)
    ensures
        ({
            let n = name@;
            if n == "move"@ {
                r.activity_type@ == "moving"@ && r.detail@ == "Going to "@ + detail@
            } else if n == "respond"@ {
                r.activity_type@ == "conversing"@ && r.detail@ == "Talking to someone..."@
            } else if n == "fetch_url"@ || n == "web_search"@ || n == "web_fetch"@ {
                r.activity_type@ == "searching"@
            } else if n == "shell"@ {
                let t = crate::web::trim_chars(detail@);
                let k = shell_activity_kind(t);
                if k == 0 {
                    r.activity_type@ == "python"@ && r.detail@ == clipped(t, 60)
                } else if k == 1 {
                    r.activity_type@ == "writing"@
                } else if k == 2 {
                    r.activity_type@ == "reading"@ && r.detail@ == clipped(t, 50)
                } else {
                    r.activity_type@ == "shell"@ && r.detail@ == clipped(t, 50)
                }
            } else {
                r.activity_type@ == "working"@ && r.detail@ == name@
            }
        }),
{
    if crate::strutil::str_eq(name, "move") {
        let mut d = String::from_str("Going to ");
        d.append(detail);
        ActivityData { activity_type: String::from_str("moving"), detail: d }
    } else if crate::strutil::str_eq(name, "respond") {
        ActivityData {
            activity_type: String::from_str("conversing"),
            detail: String::from_str("Talking to someone..."),
        }
    } else if crate::strutil::str_eq(name, "fetch_url") || crate::strutil::str_eq(
        name,
        "web_search",
    ) || crate::strutil::str_eq(name, "web_fetch") {
        let mut d = String::from_str(name);
        d.append("...");
        ActivityData { activity_type: String::from_str("searching"), detail: d }
    } else if crate::strutil::str_eq(name, "shell") {
        let chars = crate::strutil::str_chars(detail);
        let t = crate::web::trim_chars_exec(chars.as_slice());
        let p_python: &[char] = &['p', 'y', 't', 'h', 'o', 'n'];
        let p_tee: &[char] = &['t', 'e', 'e', ' '];
        let p_cat: &[char] = &['c', 'a', 't', ' '];
        let p_head: &[char] = &['h', 'e', 'a', 'd', ' '];
        let p_tail: &[char] = &['t', 'a', 'i', 'l', ' '];
        let p_ls: &[char] = &['l', 's'];
        let p_find: &[char] = &['f', 'i', 'n', 'd', ' '];
        let p_grep: &[char] = &['g', 'r', 'e', 'p', ' '];
        proof {
            reveal_strlit("python");
            reveal_strlit("tee ");
            reveal_strlit("cat ");
            reveal_strlit("head ");
            reveal_strlit("tail ");
            reveal_strlit("ls");
            reveal_strlit("find ");
            reveal_strlit("grep ");
            assert(p_python@ =~= "python"@);
            assert(p_tee@ =~= "tee "@);
            assert(p_cat@ =~= "cat "@);
            assert(p_head@ =~= "head "@);
            assert(p_tail@ =~= "tail "@);
            assert(p_ls@ =~= "ls"@);
            assert(p_find@ =~= "find "@);
            assert(p_grep@ =~= "grep "@);
        }
        if crate::strutil::starts_with_chars(t, p_python) {
            ActivityData {
                activity_type: String::from_str("python"),
                detail: clip_chars(t, 60),
            }
        } else if crate::strutil::has_char(t, '>') || crate::strutil::starts_with_chars(
            t,
            p_tee,
        ) {
            let mut d = String::from_str("Writing ");
            let f = write_target(t);
            d.append(f.as_str());
            ActivityData { activity_type: String::from_str("writing"), detail: d }
        } else if crate::strutil::starts_with_chars(t, p_cat) || crate::strutil::starts_with_chars(
            t,
            p_head,
        ) || crate::strutil::starts_with_chars(t, p_tail) || crate::strutil::starts_with_chars(
            t,
            p_ls,
        ) || crate::strutil::starts_with_chars(t, p_find) || crate::strutil::starts_with_chars(
            t,
            p_grep,
        ) {
            ActivityData {
                activity_type: String::from_str("reading"),
                detail: clip_chars(t, 50),
            }
        } else {
            ActivityData { activity_type: String::from_str("shell"), detail: clip_chars(t, 50) }
        }
    } else {
        ActivityData {
            activity_type: String::from_str("working"),
            detail: String::from_str(name),
        }
    }
}

/// The file a redirecting command writes: the first word after its last
/// `>`, or "file" when there is none.
fn write_target(t: &[char]) -> (r: String)
{
    let n = t.len();
    let mut last_gt: usize = 0;
    let mut found = false;
    let mut i: usize = 0;
    while i < n
        invariant
            i <= n,
            n == t@.len(),
            found ==> last_gt < n,
        decreases n - i,
    {
        if t[i] == '>' {
            last_gt = i;
            found = true;
        }
        i += 1;
    }
    if !found {
        return String::from_str("file");
    }
    let after = vstd::slice::slice_subrange(t, last_gt + 1, n);
    let trimmed = crate::web::trim_chars_exec(after);
    let mut j: usize = 0;
    let m = trimmed.len();
    while j < m
        invariant
            j <= m,
            m == trimmed@.len(),
        decreases m - j,
    {
        if trimmed[j] == ' ' {
            let word = vstd::slice::slice_subrange(trimmed, 0, j);
            if word.len() == 0 {
                return String::from_str("file");
            }
            return copy_to_string(word);
        }
        j += 1;
    }
    if m == 0 {
        return String::from_str("file");
    }
    copy_to_string(trimmed)
}

// ---------------------------------------------------------------------------
// Plan and focus text
// ---------------------------------------------------------------------------

/// The first exact occurrence of `pat` at or after `from`.
pub open spec fn first_seq_at(s: Seq<char>, pat: Seq<char>, from: int) -> Option<int>
    decreases s.len() - from,
    when 0 <= from
{
    if from + pat.len() > s.len() {
        None
    } else if pat.len() == 0 {
        Some(from)
    } else if s.subrange(from, from + pat.len()) == pat {
        Some(from)
    } else {
        first_seq_at(s, pat, from + 1)
    }
}

fn find_seq(s: &[char], pat: &[char], from: usize) -> (r: Option<usize>)
    ensures
        match r {
            Some(i) => first_seq_at(s@, pat@, from as int) == Some(i as int) && from <= i
                && i + pat@.len() <= s@.len(),
            None => first_seq_at(s@, pat@, from as int) is None,
        },
    decreases s@.len() - from,
{
    if from > s.len() || pat.len() > s.len() - from {
        return None;
    }
    if pat.len() == 0 {
        return Some(from);
    }
    let sub = vstd::slice::slice_subrange(s, from, from + pat.len());
    if crate::strutil::chars_eq(sub, pat) {
        Some(from)
    } else {
        find_seq(s, pat, from + 1)
    }
}

/// How a planning reply splits into the plan body and the daily log entry:
/// at the first `LOG:` marker, both sides trimmed; no marker leaves the
/// whole text as the body and an empty entry.
pub open spec fn plan_split_spec(s: Seq<char>) -> (Seq<char>, Seq<char>) {
    match first_seq_at(s, "LOG:"@, 0) {
        Some(i) => (
            crate::web::trim_chars(s.subrange(0, i)),
            crate::web::trim_chars(s.skip(i + 4)),
        ),
        None => (s, Seq::empty()),
    }
}

/// Split a planning reply into the new plan document and the daily log
/// entry.
pub fn split_plan_log(text: &str) -> (r: (String, String))
    ensures
        r.0@ == plan_split_spec(text@).0,
        r.1@ == plan_split_spec(text@).1,
{
    let chars = crate::strutil::str_chars(text);
    let pat: &[char] = &['L', 'O', 'G', ':'];
    proof {
        reveal_strlit("LOG:");
        assert(pat@ =~= "LOG:"@);
    }
    let clen = chars.len();
    match find_seq(chars.as_slice(), pat, 0) {
        Some(i) => {
            proof {
                assert(pat@.len() == 4);
                assert(i + 4 <= clen);
            }
            let head = vstd::slice::slice_subrange(chars.as_slice(), 0, i);
            let tail = vstd::slice::slice_subrange(chars.as_slice(), i + 4, clen);
            proof {
                assert(head@ =~= chars@.subrange(0, i as int));
                assert(tail@ =~= chars@.skip(i + 4));
            }
            let body = copy_to_string(crate::web::trim_chars_exec(head));
            let log = copy_to_string(crate::web::trim_chars_exec(tail));
            (body, log)
        },
        None => (text.to_owned(), String::new()),
    }
}


// ---------------------------------------------------------------------------
// Lines of documents
// ---------------------------------------------------------------------------

/// Where the line beginning at `i` ends (exclusive of the newline).
pub open spec fn line_break_at(s: Seq<char>, i: int) -> int
    decreases s.len() - i,
    when 0 <= i <= s.len()
{
    if i == s.len() || s[i] == '\n' {
        i
    } else {
        line_break_at(s, i + 1)
    }
}

pub proof fn lemma_line_break(s: Seq<char>, i: int)
    requires
        0 <= i <= s.len(),
    ensures
        i <= line_break_at(s, i) <= s.len(),
    decreases s.len() - i,
{
    if !(i == s.len() || s[i] == '\n') {
        lemma_line_break(s, i + 1);
    }
}

fn line_break_exec(s: &[char], i: usize) -> (r: usize)
    requires
        i <= s@.len(),
    ensures
        r == line_break_at(s@, i as int),
        i <= r <= s@.len(),
    decreases s@.len() - i,
{
    proof {
        lemma_line_break(s@, i as int);
    }
    if i == s.len() || s[i] == '\n' {
        i
    } else {
        line_break_exec(s, i + 1)
    }
}

/// The trimmed, nonempty lines of a text, in order.
pub open spec fn nonempty_lines(s: Seq<char>, i: int) -> Seq<Seq<char>>
    decreases s.len() - i,
    when 0 <= i <= s.len()
{
    if i >= s.len() {
        Seq::empty()
    } else {
        let e = line_break_at(s, i);
        proof {
            lemma_line_break(s, i);
        }
        let t = crate::web::trim_chars(s.subrange(i, e));
        let rest = if e < s.len() {
            nonempty_lines(s, e + 1)
        } else {
            Seq::empty()
        };
        if t.len() > 0 {
            seq![t] + rest
        } else {
            rest
        }
    }
}

fn lines_from(s: &[char], i: usize) -> (r: Vec<String>)
    requires
        i <= s@.len(),
    ensures
        r@.len() == nonempty_lines(s@, i as int).len(),
        forall|j: int|
            0 <= j < r@.len() ==> (#[trigger] r@[j])@ == nonempty_lines(s@, i as int)[j],
    decreases s@.len() - i,
{
    if i >= s.len() {
        return Vec::new();
    }
    let e = line_break_exec(s, i);
    let line = vstd::slice::slice_subrange(s, i, e);
    let t = crate::web::trim_chars_exec(line);
    let mut rest: Vec<String> = if e < s.len() {
        lines_from(s, e + 1)
    } else {
        Vec::new()
    };
    if t.len() > 0 {
        let ts = copy_to_string(t);
        rest.insert(0, ts);
        proof {
            assert forall|j: int| 0 <= j < rest@.len() implies (#[trigger] rest@[j])@
                == nonempty_lines(s@, i as int)[j] by {
                if j > 0 {
                    assert(rest@[j] == rest@.subrange(1, rest@.len() as int)[j - 1]);
                }
            }
        }
        rest
    } else {
        rest
    }
}

/// Split a reflection reply into its insight lines: each line trimmed,
/// blank lines dropped, order kept.
pub fn split_nonempty_lines(text: &str) -> (r: Vec<String>)
    ensures
        r@.len() == nonempty_lines(text@, 0).len(),
        forall|j: int| 0 <= j < r@.len() ==> (#[trigger] r@[j])@ == nonempty_lines(text@, 0)[j],
{
    let chars = crate::strutil::str_chars(text);
    lines_from(chars.as_slice(), 0)
}

// ---------------------------------------------------------------------------
// The focus section of the plan document
// ---------------------------------------------------------------------------

/// ASCII lower-casing of a whole sequence.
pub open spec fn lower_all(s: Seq<char>) -> Seq<char> {
    Seq::new(s.len(), |i: int| crate::web::lower_char(s[i]))
}

/// The focus text of a plan document from line `i` on: once the focus
/// heading has been seen, the trimmed following lines joined by single
/// spaces, up to the next heading.
pub open spec fn focus_text(s: Seq<char>, i: int, in_focus: bool) -> Seq<char>
    decreases s.len() - i,
    when 0 <= i <= s.len()
{
    if i >= s.len() {
        Seq::empty()
    } else {
        let e = line_break_at(s, i);
        proof {
            lemma_line_break(s, i);
        }
        let line = s.subrange(i, e);
        let t = crate::web::trim_chars(line);
        let next = if e < s.len() {
            e + 1
        } else {
            s.len() as int
        };
        if !in_focus {
            if crate::strutil::has_char_prefix(lower_all(t), "# current focus"@) {
                focus_text(s, next, true)
            } else {
                focus_text(s, next, false)
            }
        } else if crate::strutil::has_char_prefix(line, "# "@) {
            Seq::empty()
        } else if t.len() == 0 {
            focus_text(s, next, true)
        } else {
            let rest = focus_text(s, next, true);
            if rest.len() == 0 {
                t
            } else {
                t + seq![' '] + rest
            }
        }
    }
}

fn lower_chars(s: &[char]) -> (r: Vec<char>)
    ensures
        r@ == lower_all(s@),
{
    let mut out: Vec<char> = Vec::new();
    let mut i: usize = 0;
    while i < s.len()
        invariant
            i <= s@.len(),
            out@.len() == i,
            forall|j: int| 0 <= j < i ==> out@[j] == crate::web::lower_char(s@[j]),
        decreases s@.len() - i,
    {
        let c = s[i];
        let lc: char = if 'A' <= c && c <= 'Z' {
            ((c as u8) + 32) as char
        } else {
            c
        };
        out.push(lc);
        i += 1;
    }
    proof {
        assert(out@ =~= lower_all(s@));
    }
    out
}

fn focus_from(s: &[char], i: usize, in_focus: bool) -> (r: Vec<char>)
    requires
        i <= s@.len(),
    ensures
        r@ == focus_text(s@, i as int, in_focus),
    decreases s@.len() - i,
{
    if i >= s.len() {
        return Vec::new();
    }
    let e = line_break_exec(s, i);
    let line = vstd::slice::slice_subrange(s, i, e);
    let t = crate::web::trim_chars_exec(line);
    let next: usize = if e < s.len() {
        e + 1
    } else {
        s.len()
    };
    if !in_focus {
        let low = lower_chars(t);
        let heading: &[char] = &['#', ' ', 'c', 'u', 'r', 'r', 'e', 'n', 't', ' ', 'f', 'o', 'c',
            'u', 's'];
        proof {
            reveal_strlit("# current focus");
            assert(heading@ =~= "# current focus"@);
        }
        if crate::strutil::starts_with_chars(low.as_slice(), heading) {
            focus_from(s, next, true)
        } else {
            focus_from(s, next, false)
        }
    } else {
        let hash: &[char] = &['#', ' '];
        proof {
            reveal_strlit("# ");
            assert(hash@ =~= "# "@);
        }
        if crate::strutil::starts_with_chars(line, hash) {
            Vec::new()
        } else if t.len() == 0 {
            focus_from(s, next, true)
        } else {
            let rest = focus_from(s, next, true);
            let mut out: Vec<char> = Vec::new();
            let mut k: usize = 0;
            while k < t.len()
                invariant
                    k <= t@.len(),
                    out@ == t@.subrange(0, k as int),
                decreases t@.len() - k,
            {
                out.push(t[k]);
                proof {
                    assert(out@ =~= t@.subrange(0, k + 1));
                }
                k += 1;
            }
            proof {
                assert(out@ =~= t@);
            }
            if rest.len() == 0 {
                out
            } else {
                out.push(' ');
                let mut k2: usize = 0;
                while k2 < rest.len()
                    invariant
                        k2 <= rest@.len(),
                        out@ == t@.push(' ') + rest@.subrange(0, k2 as int),
                    decreases rest@.len() - k2,
                {
                    out.push(rest[k2]);
                    proof {
                        assert(out@ =~= t@.push(' ') + rest@.subrange(0, k2 + 1));
                    }
                    k2 += 1;
                }
                proof {
                    assert(out@ =~= t@ + seq![' '] + rest@);
                }
                out
            }
        }
    }
}

/// The recognized focus section of the plan document: the lines after the
/// focus heading, joined with spaces and capped at 300 characters.
pub fn extract_focus(projects: &str) -> (r: String)
    ensures
        ({
            let f = focus_text(projects@, 0, false);
            if f.len() > 300 {
                r@ == f.subrange(0, 300)
            } else {
                r@ == f
            }
        }),
{
    let chars = crate::strutil::str_chars(projects);
    let full = focus_from(chars.as_slice(), 0, false);
    if full.len() > 300 {
        let head = vstd::slice::slice_subrange(full.as_slice(), 0, 300);
        copy_to_string(head)
    } else {
        copy_to_string(full.as_slice())
    }
}

} // verus!
