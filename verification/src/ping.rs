//! Pings: the proxy asks the agent for a sign of life, reports what came of it,
//! and a command asks a running proxy for that report.

use vstd::arithmetic::div_mod::{lemma_div_pos_is_pos, lemma_fundamental_div_mod, lemma_mod_bound};
use vstd::arithmetic::mul::{lemma_mul_inequality, lemma_mul_is_commutative};
use vstd::prelude::*;
use vstd::string::*;

use crate::text::{bool_text, bool_word, decimal, decimal_text};
use crate::wire::{JobView, RequestJob};

verus! {

/// What came of a ping: how long it took, in milliseconds, and whether the
/// agent answered.
#[derive(Debug)]
pub struct PingStatus {
    pub ms: u64,
    pub ok: bool,
}

/// What the channel of a ping gave when it was looked at.
pub enum PollResult {
    Answer,
    Empty,
    Disconnected,
}

/// What to do about a ping: look at its channel, or stop, with or without an
/// answer.
pub enum PingNext {
    Poll,
    Stop(bool),
}

/// The wait for the answer to a ping.
pub struct PingWait {
    left: u32,
    stopped: Option<bool>,
}

/// What is left of a wait: how many more looks, and what it stopped with.
#[verifier::ext_equal]
pub struct PingWaitView {
    pub left: int,
    pub stopped: Option<bool>,
}

impl View for PingWait {
    type V = PingWaitView;

    closed spec fn view(&self) -> PingWaitView {
        PingWaitView { left: self.left as int, stopped: self.stopped }
    }
}

/// How often the channel is looked at: as often as a poll fits the timeout.
pub open spec fn ping_looks(timeout: int, poll: int) -> int {
    timeout / poll
}

/// The wait after a look at the channel: an answer or a closed channel stops
/// it, an empty channel costs one look.
pub open spec fn after_poll(wait: PingWaitView, polled: PollResult) -> PingWaitView {
    match polled {
        PollResult::Answer => PingWaitView { stopped: Some(true), ..wait },
        PollResult::Disconnected => PingWaitView { stopped: Some(false), ..wait },
        PollResult::Empty => PingWaitView { left: wait.left - 1, ..wait },
    }
}

/// What to do next in a wait.
pub open spec fn ping_next(wait: PingWaitView) -> PingNext {
    match wait.stopped {
        Some(answered) => PingNext::Stop(answered),
        None => if wait.left > 0 {
            PingNext::Poll
        } else {
            PingNext::Stop(false)
        },
    }
}

impl PingWait {
    /// The start of a wait of `timeout` milliseconds that looks at the channel
    /// every `poll` milliseconds.
    pub fn start(timeout: u32, poll: u32) -> (wait: PingWait)
        requires
            poll > 0,
        ensures
            wait@ == (PingWaitView {
                left: ping_looks(timeout as int, poll as int),
                stopped: None,
            }),
            wait@.left == timeout / poll,
            wait@.stopped is None,
    {
        PingWait { left: timeout / poll, stopped: None }
    }

    /// What to do next.
    pub fn next(&self) -> (next: PingNext)
        ensures
            next == ping_next(self@),
            next is Poll <==> self@.stopped is None && self@.left > 0,
            next matches PingNext::Stop(answered) ==> answered == (self@.stopped == Some(true)),
    {
        match self.stopped {
            Some(answered) => PingNext::Stop(answered),
            None => if self.left > 0 {
                PingNext::Poll
            } else {
                PingNext::Stop(false)
            },
        }
    }

    /// Takes in what a look at the channel gave, and says whether to wait for
    /// the time of a poll before what is next.
    pub fn on_poll(&mut self, polled: PollResult) -> (sleep: bool)
        requires
            ping_next(old(self)@) is Poll,
        ensures
            final(self)@ == after_poll(old(self)@, polled),
            final(self)@.left == old(self)@.left - (if polled is Empty {
                1int
            } else {
                0int
            }),
            final(self)@.stopped == (match polled {
                PollResult::Answer => Some(true),
                PollResult::Empty => None,
                PollResult::Disconnected => Some(false),
            }),
            sleep == (polled is Empty),
    {
        match polled {
            PollResult::Answer => {
                self.stopped = Some(true);
                false
            },
            PollResult::Empty => {
                self.left = self.left - 1;
                true
            },
            PollResult::Disconnected => {
                self.stopped = Some(false);
                false
            },
        }
    }
}

/// The job that a ping sends.
pub fn ping_job() -> (job: RequestJob)
    ensures
        job@ == (JobView { type_id: 3, localpath: None }),
{
    RequestJob { type_id: 3, localpath: None }
}

/// The outcome of a ping that took `elapsed_ms`, of which 64 bits are kept.
pub fn ping_status(elapsed_ms: u128, ok: bool) -> (status: PingStatus)
    ensures
        status.ms == elapsed_ms % 0x1_0000_0000_0000_0000,
        status.ok == ok,
{
    PingStatus { ms: (elapsed_ms % 0x1_0000_0000_0000_0000) as u64, ok }
}

/// The word for the outcome of a ping.
pub open spec fn ping_word(ok: bool) -> Seq<char> {
    if ok {
        "ok"@
    } else {
        "error"@
    }
}

/// The line that reports the last ping.
pub fn ping_line(status: &PingStatus) -> (line: String)
    ensures
        line@ == "LastAgentPing "@ + decimal(status.ms as nat) + "ms "@ + ping_word(status.ok),
        status.ok ==> line@ == "LastAgentPing "@ + decimal(status.ms as nat) + "ms "@ + "ok"@,
        !status.ok ==> line@ == "LastAgentPing "@ + decimal(status.ms as nat) + "ms "@ + "error"@,
{
    let word = if status.ok {
        "ok"
    } else {
        "error"
    };
    "LastAgentPing ".to_owned().concat(decimal_text(status.ms).as_str()).concat("ms ").concat(word)
}

/// The JSON text of the outcome of a ping.
pub open spec fn ping_json_of(ms: u64, ok: bool) -> Seq<char> {
    "{\"ms\":"@ + decimal(ms as nat) + ",\"ok\":"@ + bool_word(ok) + "}"@
}

/// Writes the outcome of a ping as JSON.
pub fn ping_json(status: &PingStatus) -> (text: String)
    ensures
        text@ == ping_json_of(status.ms, status.ok),
        text@ == "{\"ms\":"@ + decimal(status.ms as nat) + (if status.ok {
            ",\"ok\":true}"@
        } else {
            ",\"ok\":false}"@
        }),
{
    proof {
        law_ping_json(status.ms, status.ok);
    }
    "{\"ms\":".to_owned().concat(decimal_text(status.ms).as_str()).concat(",\"ok\":").concat(
        bool_text(status.ok),
    ).concat("}")
}

/// What a command asks for.
pub enum Command {
    Ping(String),
    Nothing,
}

/// The address of the report on pings.
pub open spec fn ping_url(http_bind_addr: Seq<char>) -> Seq<char> {
    "http://"@ + http_bind_addr + "/ping"@
}

/// Decides what a command asks for: `ping` asks the proxy at `http_bind_addr`
/// for its report, nothing else is known.
pub fn cli(subcommand: &String, http_bind_addr: &str) -> (command: Command)
    ensures
        subcommand@ == "ping"@ ==> (command matches Command::Ping(url) && url@ == ping_url(
            http_bind_addr@,
        )),
        command matches Command::Ping(url) ==> subcommand@ == "ping"@ && url@ == "http://"@
            + http_bind_addr@ + "/ping"@,
        subcommand@ != "ping"@ ==> command == Command::Nothing,
{
    if *subcommand == "ping".to_owned() {
        Command::Ping("http://".to_owned().concat(http_bind_addr).concat("/ping"))
    } else {
        Command::Nothing
    }
}

/// How far the command got: no answer, no body, a body that is not a report,
/// or a report.
pub enum Fetched {
    NoAnswer,
    NoBody,
    NoReport,
    Report(PingStatus),
}

/// The line that the command prints, and its exit code.
pub struct Verdict {
    pub print: String,
    pub exit_code: i32,
}

/// Decides what the command prints and exits with: the report where there is
/// one, else that of a ping that failed at once.
pub fn ping_verdict(fetched: Fetched) -> (verdict: Verdict)
    ensures
        verdict.print@ == (match fetched {
            Fetched::Report(status) => ping_json_of(status.ms, status.ok),
            _ => ping_json_of(0, false),
        }),
        verdict.exit_code == (match fetched {
            Fetched::NoAnswer => 1i32,
            Fetched::NoBody => 2i32,
            Fetched::NoReport => 3i32,
            Fetched::Report(status) => if status.ok {
                0i32
            } else {
                4i32
            },
        }),
{
    let error = PingStatus { ms: 0, ok: false };
    match fetched {
        Fetched::NoAnswer => Verdict { print: ping_json(&error), exit_code: 1 },
        Fetched::NoBody => Verdict { print: ping_json(&error), exit_code: 2 },
        Fetched::NoReport => Verdict { print: ping_json(&error), exit_code: 3 },
        Fetched::Report(status) => {
            let exit_code: i32 = if status.ok {
                0
            } else {
                4
            };
            Verdict { print: ping_json(&status), exit_code }
        },
    }
}

/// The wait after looks that gave, one after another, `polled`. It takes in
/// none once it has stopped.
pub open spec fn after_polls(wait: PingWaitView, polled: Seq<PollResult>) -> PingWaitView
    decreases polled.len(),
{
    if polled.len() == 0 || !(ping_next(wait) is Poll) {
        wait
    } else {
        after_polls(after_poll(wait, polled[0]), polled.drop_first())
    }
}

/// How often a wait pauses while it takes in looks.
pub open spec fn pauses(wait: PingWaitView, polled: Seq<PollResult>) -> int
    decreases polled.len(),
{
    if polled.len() == 0 || !(ping_next(wait) is Poll) {
        0
    } else {
        (if polled[0] is Empty {
            1int
        } else {
            0int
        }) + pauses(after_poll(wait, polled[0]), polled.drop_first())
    }
}

/// The look `i` finds the answer, and all before it found the channel empty.
pub open spec fn answers_at(polled: Seq<PollResult>, i: int) -> bool {
    polled[i] is Answer && forall|j: int| 0 <= j < i ==> #[trigger] polled[j] is Empty
}

/// One of the first `looks` looks finds the answer.
pub open spec fn answered_within(polled: Seq<PollResult>, looks: int) -> bool {
    exists|i: int| 0 <= i < looks && #[trigger] answers_at(polled, i)
}

proof fn lemma_answered_after_empty(polled: Seq<PollResult>, looks: int)
    requires
        0 < looks <= polled.len(),
        polled[0] is Empty,
    ensures
        answered_within(polled, looks) == answered_within(polled.drop_first(), looks - 1),
{
    let rest = polled.drop_first();
    if answered_within(polled, looks) {
        let i = choose|i: int| 0 <= i < looks && #[trigger] answers_at(polled, i);
        assert(i > 0);
        assert forall|j: int| 0 <= j < i - 1 implies #[trigger] rest[j] is Empty by {
            assert(rest[j] == polled[j + 1]);
        }
        assert(answers_at(rest, i - 1));
    }
    if answered_within(rest, looks - 1) {
        let i = choose|i: int| 0 <= i < looks - 1 && #[trigger] answers_at(rest, i);
        assert forall|j: int| 0 <= j < i + 1 implies #[trigger] polled[j] is Empty by {
            if j > 0 {
                assert(polled[j] == rest[j - 1]);
            }
        }
        assert(polled[i + 1] == rest[i]);
        assert(answers_at(polled, i + 1));
    }
}

proof fn lemma_stops(wait: PingWaitView, polled: Seq<PollResult>)
    requires
        wait.stopped is None,
        wait.left >= 0,
        polled.len() >= wait.left,
    ensures
        ping_next(after_polls(wait, polled)) == PingNext::Stop(
            answered_within(polled, wait.left),
        ),
        pauses(wait, polled) <= wait.left,
    decreases polled.len(),
{
    if wait.left > 0 {
        let rest = polled.drop_first();
        let after = after_poll(wait, polled[0]);
        match polled[0] {
            PollResult::Empty => {
                lemma_stops(after, rest);
                lemma_answered_after_empty(polled, wait.left);
            },
            PollResult::Answer => {
                assert(after_polls(after, rest) == after);
                assert(pauses(after, rest) == 0);
                assert(answers_at(polled, 0));
            },
            PollResult::Disconnected => {
                assert(after_polls(after, rest) == after);
                assert(pauses(after, rest) == 0);
                assert forall|i: int| 0 <= i < wait.left implies !#[trigger] answers_at(
                    polled,
                    i,
                ) by {
                    if i > 0 && answers_at(polled, i) {
                        assert(polled[0] is Empty);
                    }
                }
            },
        }
    }
}

proof fn lemma_looks(timeout: int, poll: int)
    requires
        timeout >= 0,
        poll > 0,
    ensures
        0 <= ping_looks(timeout, poll),
        ping_looks(timeout, poll) * poll <= timeout,
        timeout - ping_looks(timeout, poll) * poll < poll,
{
    lemma_div_pos_is_pos(timeout, poll);
    lemma_fundamental_div_mod(timeout, poll);
    lemma_mul_is_commutative(ping_looks(timeout, poll), poll);
    lemma_mod_bound(timeout, poll);
}

/// A ping ends, whatever its channel gives, after at most as many looks as a
/// poll fits the timeout. It succeeds exactly where one of these looks finds
/// the answer and all before it found the channel empty.
pub proof fn law_ping_ends(timeout: u32, poll: u32, polled: Seq<PollResult>)
    requires
        poll > 0,
        polled.len() >= ping_looks(timeout as int, poll as int),
    ensures
        ({
            let looks = ping_looks(timeout as int, poll as int);
            ping_next(after_polls(PingWaitView { left: looks, stopped: None }, polled))
                == PingNext::Stop(answered_within(polled, looks))
        }),
{
    let looks = ping_looks(timeout as int, poll as int);
    lemma_looks(timeout as int, poll as int);
    lemma_stops(PingWaitView { left: looks, stopped: None }, polled);
}

proof fn lemma_pauses(wait: PingWaitView, polled: Seq<PollResult>, n: int)
    requires
        wait.stopped is None,
        0 <= n <= wait.left <= polled.len(),
        forall|i: int| 0 <= i < n ==> #[trigger] polled[i] is Empty,
        n < wait.left ==> !(polled[n] is Empty),
    ensures
        pauses(wait, polled) == n,
    decreases polled.len(),
{
    if wait.left > 0 {
        let rest = polled.drop_first();
        let after = after_poll(wait, polled[0]);
        if n == 0 {
            assert(pauses(after, rest) == 0);
        } else {
            assert forall|i: int| 0 <= i < n - 1 implies #[trigger] rest[i] is Empty by {
                assert(rest[i] == polled[i + 1]);
            }
            lemma_pauses(after, rest, n - 1);
        }
    }
}

/// A ping pauses once for each look that finds the channel empty, until one
/// finds something: after `n` empty looks, where the next one is not or there
/// is none, it has paused `n` times. One that hears nothing at all pauses as
/// often as a poll fits the timeout.
pub proof fn law_ping_pauses_on_empty_looks(
    timeout: u32,
    poll: u32,
    polled: Seq<PollResult>,
    n: int,
)
    requires
        poll > 0,
        0 <= n <= ping_looks(timeout as int, poll as int) <= polled.len(),
        forall|i: int| 0 <= i < n ==> #[trigger] polled[i] is Empty,
        n < ping_looks(timeout as int, poll as int) ==> !(polled[n] is Empty),
    ensures
        pauses(
            PingWaitView { left: ping_looks(timeout as int, poll as int), stopped: None },
            polled,
        ) == n,
{
    let looks = ping_looks(timeout as int, poll as int);
    lemma_pauses(PingWaitView { left: looks, stopped: None }, polled, n);
}

/// A ping pauses for no longer than the timeout in all. One that hears nothing
/// pauses as often as a poll fits the timeout, and so gives up less than a poll
/// before it is over.
pub proof fn law_ping_keeps_the_timeout(timeout: u32, poll: u32, polled: Seq<PollResult>)
    requires
        poll > 0,
        polled.len() >= ping_looks(timeout as int, poll as int),
    ensures
        ({
            let looks = ping_looks(timeout as int, poll as int);
            let n = pauses(PingWaitView { left: looks, stopped: None }, polled);
            &&& n * poll <= timeout
            &&& (forall|i: int| 0 <= i < looks ==> #[trigger] polled[i] is Empty) ==> {
                n == looks && timeout - n * poll < poll
            }
        }),
{
    let looks = ping_looks(timeout as int, poll as int);
    let n = pauses(PingWaitView { left: looks, stopped: None }, polled);
    lemma_looks(timeout as int, poll as int);
    lemma_stops(PingWaitView { left: looks, stopped: None }, polled);
    lemma_mul_inequality(n, looks, poll as int);
    if forall|i: int| 0 <= i < looks ==> #[trigger] polled[i] is Empty {
        lemma_pauses(PingWaitView { left: looks, stopped: None }, polled, looks);
    }
}

/// The outcome of a ping as JSON: the milliseconds in decimal, and whether the
/// agent answered.
pub proof fn law_ping_json(ms: u64, ok: bool)
    ensures
        ping_json_of(ms, ok) == "{\"ms\":"@ + decimal(ms as nat) + (if ok {
            ",\"ok\":true}"@
        } else {
            ",\"ok\":false}"@
        }),
{
    reveal_strlit(",\"ok\":");
    reveal_strlit("true");
    reveal_strlit("false");
    reveal_strlit("}");
    reveal_strlit(",\"ok\":true}");
    reveal_strlit(",\"ok\":false}");
    assert(",\"ok\":"@ + "true"@ + "}"@ =~= ",\"ok\":true}"@);
    assert(",\"ok\":"@ + "false"@ + "}"@ =~= ",\"ok\":false}"@);
    let head = "{\"ms\":"@ + decimal(ms as nat);
    let word = bool_word(ok);
    assert(head + ",\"ok\":"@ + word + "}"@ =~= head + (",\"ok\":"@ + word + "}"@));
}

/// A wait goes on exactly while it has not stopped and has looks left. An answer
/// stops it with success, a closed channel without, and an empty channel takes
/// one look off.
pub proof fn law_ping_steps(wait: PingWaitView, polled: PollResult)
    ensures
        ping_next(wait) is Poll <==> wait.stopped is None && wait.left > 0,
        ping_next(wait) matches PingNext::Stop(answered) ==> answered == (wait.stopped == Some(
            true,
        )),
        polled is Answer ==> ping_next(after_poll(wait, polled)) == PingNext::Stop(true),
        polled is Disconnected ==> ping_next(after_poll(wait, polled)) == PingNext::Stop(false),
        polled is Empty ==> after_poll(wait, polled).left == wait.left - 1 && after_poll(
            wait,
            polled,
        ).stopped == wait.stopped,
{
}

} // verus!
