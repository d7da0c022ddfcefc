//! Delivery of alerts to the UniFi Protect Alarm Manager incoming webhook.
//!
//! Policy:
//! - bounded attempts with linear backoff between them;
//! - network errors, timeouts, 408, 429, and 5xx responses are retried;
//! - other 4xx responses are permanent (wrong key, wrong webhook ID) and are
//!   not retried: retrying a 403 three times only delays the failure signal;
//! - error strings never contain the webhook URL (it embeds the webhook ID,
//!   and `/status` exposes these strings to the monitoring network).
//!
//! The requests themselves are made outside: a [`Delivery`] says what to do
//! next and is told what came of it.

use vstd::prelude::*;

use crate::clock::Duration;
use crate::status::is_retryable;
use crate::status::is_retryable_status;
use crate::status::is_status;
use crate::status::is_success;
use crate::status::is_success_status;
use crate::status::shows_code;
use crate::status::status_display;
use crate::status::status_text;
use crate::weburl::Url;

verus! {

/// Where and how alerts are delivered. It cannot be printed: the URL and the
/// key are secrets.
#[derive(Clone)]
pub struct WebhookConfig {
    pub url: Url,
    pub api_key: String,
    pub timeout: Duration,
    pub attempts: u32,
}

/// Outcome carried into health state; the `String` is a sanitised message.
pub type DeliveryResult = Result<(), String>;

/// What came of a request.
#[derive(Debug)]
pub enum Reply {
    /// A response with this status.
    Status(u16),
    /// No response; the error, without the URL.
    Failed(String),
    /// No response in time; the timeout in seconds.
    TimedOut(String),
}

/// What to do next.
#[derive(Debug)]
pub enum Action {
    /// Send the request.
    Send,
    /// The attempt failed with `error`: wait for so many seconds, then send the
    /// request again.
    RetryAfter { secs: u32, error: String },
    /// The delivery is refused for good and over.
    Refused(String),
    /// The delivery is over.
    Finish(DeliveryResult),
}

/// What a `Reply` says: delivered, refused for good, or worth another try,
/// with the message for the operator.
pub enum Verdict {
    Delivered,
    Permanent(Seq<char>),
    Transient(Seq<char>),
}

/// What an `Action` holds.
pub enum ActionView {
    Send,
    RetryAfter { secs: nat, error: Seq<char> },
    Refuse(Seq<char>),
    Succeed,
    Fail(Seq<char>),
}

impl View for Action {
    type V = ActionView;

    open spec fn view(&self) -> ActionView {
        match *self {
            Action::Send => ActionView::Send,
            Action::RetryAfter { secs, error } => ActionView::RetryAfter {
                secs: secs as nat,
                error: error@,
            },
            Action::Refused(e) => ActionView::Refuse(e@),
            Action::Finish(Ok(())) => ActionView::Succeed,
            Action::Finish(Err(e)) => ActionView::Fail(e@),
        }
    }
}

/// The message that an action carries.
pub open spec fn told(action: ActionView) -> Option<Seq<char>> {
    match action {
        ActionView::RetryAfter { secs, error } => Some(error),
        ActionView::Refuse(message) => Some(message),
        ActionView::Fail(message) => Some(message),
        _ => None,
    }
}

/// The verdict on a response whose status is printed as `shown`.
pub open spec fn status_verdict(code: u16, shown: Seq<char>) -> Verdict {
    let message = "Protect returned "@ + shown;
    if is_success(code) {
        Verdict::Delivered
    } else if is_retryable(code) {
        Verdict::Transient(message)
    } else {
        Verdict::Permanent(message)
    }
}

pub open spec fn verdict(reply: Reply) -> Verdict {
    match reply {
        Reply::Status(code) => status_verdict(code, status_display(code)),
        Reply::Failed(e) => Verdict::Transient("Protect request failed: "@ + e@),
        Reply::TimedOut(secs) => Verdict::Transient(
            "Protect request timed out after "@ + secs@ + "s"@,
        ),
    }
}

/// How far a delivery has come: the attempts it may make, and those made or
/// under way.
pub struct Progress {
    pub attempts: nat,
    pub made: nat,
}

pub open spec fn may_retry(p: Progress) -> bool {
    p.made < p.attempts
}

/// What a verdict leads to.
pub open spec fn reaction(p: Progress, v: Verdict) -> ActionView {
    match v {
        Verdict::Delivered => ActionView::Succeed,
        Verdict::Permanent(message) => ActionView::Refuse(message),
        Verdict::Transient(message) => if may_retry(p) {
            ActionView::RetryAfter { secs: p.made, error: message }
        } else {
            ActionView::Fail(message)
        },
    }
}

pub open spec fn progress_after(p: Progress, v: Verdict) -> Progress {
    if v is Transient && may_retry(p) {
        Progress { made: p.made + 1, ..p }
    } else {
        p
    }
}

/// One delivery, from the first attempt to the last.
pub struct Delivery {
    attempts: u32,
    made: u32,
}

impl View for Delivery {
    type V = Progress;

    closed spec fn view(&self) -> Progress {
        Progress { attempts: self.attempts as nat, made: self.made as nat }
    }
}

impl Delivery {
    /// Start a delivery of at most `attempts` attempts.
    pub fn start(attempts: u32) -> (r: (Self, Action))
        ensures
            r.0@ == (Progress {
                attempts: attempts as nat,
                made: if attempts == 0 {
                    0
                } else {
                    1
                },
            }),
            r.1@ == if attempts == 0 {
                ActionView::Fail(""@)
            } else {
                ActionView::Send
            },
            attempts > 0 ==> r.1 is Send && r.0@.made == 1 && r.0@.attempts == attempts,
            attempts == 0 ==> (r.1 matches Action::Finish(Err(e)) && e@ == ""@),
    {
        if attempts == 0 {
            (Delivery { attempts, made: 0 }, Action::Finish(Err("".to_owned())))
        } else {
            (Delivery { attempts, made: 1 }, Action::Send)
        }
    }

    /// The attempts made, with the one under way.
    pub fn attempt(&self) -> (n: u32)
        ensures
            n == self@.made,
    {
        self.made
    }

    fn settle(&mut self, transient: bool, message: String) -> (action: Action)
        ensures
            action@ == reaction(
                old(self)@,
                if transient {
                    Verdict::Transient(message@)
                } else {
                    Verdict::Permanent(message@)
                },
            ),
            final(self)@ == progress_after(
                old(self)@,
                if transient {
                    Verdict::Transient(message@)
                } else {
                    Verdict::Permanent(message@)
                },
            ),
            !transient ==> (action matches Action::Refused(e) && e@ == message@) && final(self)@
                == old(self)@,
            transient && old(self)@.made < old(self)@.attempts ==> {
                &&& action matches Action::RetryAfter { secs, error }
                &&& secs == old(self)@.made
                &&& error@ == message@
                &&& final(self)@.made == old(self)@.made + 1
                &&& final(self)@.attempts == old(self)@.attempts
            },
            transient && old(self)@.made >= old(self)@.attempts ==> (action matches Action::Finish(
                Err(e),
            ) && e@ == message@) && final(self)@ == old(self)@,
    {
        if !transient {
            Action::Refused(message)
        } else if self.made < self.attempts {
            let secs: u32 = self.made;
            self.made += 1;
            Action::RetryAfter { secs, error: message }
        } else {
            Action::Finish(Err(message))
        }
    }

    /// Take a response with the status `code`, printed as `shown`.
    pub fn on_status(&mut self, code: u16, shown: &str) -> (action: Action)
        ensures
            action@ == reaction(old(self)@, status_verdict(code, shown@)),
            final(self)@ == progress_after(old(self)@, status_verdict(code, shown@)),
            200 <= code <= 299 ==> (action matches Action::Finish(Ok(()))) && final(self)@ == old(self)@,
            (500 <= code <= 599 || code == 408 || code == 429) && old(self)@.made < old(self)@.attempts ==> {
                &&& action matches Action::RetryAfter { secs, error }
                &&& secs == old(self)@.made
                &&& error@ == "Protect returned "@ + shown@
                &&& final(self)@.made == old(self)@.made + 1
                &&& final(self)@.attempts == old(self)@.attempts
            },
            (500 <= code <= 599 || code == 408 || code == 429) && old(self)@.made >= old(self)@.attempts ==> (action matches Action::Finish(Err(e)) && e@ == "Protect returned "@
                + shown@) && final(self)@ == old(self)@,
            !(200 <= code <= 299) && !(500 <= code <= 599) && code != 408 && code != 429 ==> (
            action matches Action::Refused(e) && e@ == "Protect returned "@ + shown@) && final(self)@ == old(self)@,
    {
        if is_success_status(code) {
            return Action::Finish(Ok(()));
        }
        let mut message = "Protect returned ".to_owned();
        message.append(shown);
        self.settle(is_retryable_status(code), message)
    }

    /// Take what came of a request.
    pub fn on_reply(&mut self, reply: Reply) -> (action: Action)
        requires
            reply matches Reply::Status(code) ==> is_status(code),
        ensures
            action@ == reaction(old(self)@, verdict(reply)),
            final(self)@ == progress_after(old(self)@, verdict(reply)),
            // the message of a failed attempt names the status it failed with
            match reply {
                Reply::Status(code) => !is_success(code) ==> shows_code(
                    status_display(code),
                    code,
                ) && told(action@) == Some("Protect returned "@ + status_display(code)),
                _ => true,
            },
            match reply {
                Reply::Status(code) => {
                    let message = "Protect returned "@ + status_display(code);
                    let again = 500 <= code <= 599 || code == 408 || code == 429;
                    &&& 200 <= code <= 299 ==> (action matches Action::Finish(Ok(())))
                    &&& again && old(self)@.made < old(self)@.attempts ==> (
                    action matches Action::RetryAfter { secs, error } && secs == old(self)@.made
                        && error@ == message)
                    &&& again && old(self)@.made >= old(self)@.attempts ==> (
                    action matches Action::Finish(Err(e)) && e@ == message)
                    &&& !(200 <= code <= 299) && !again ==> (action matches Action::Refused(e)
                        && e@ == message)
                    &&& final(self)@.made == if again && old(self)@.made < old(self)@.attempts {
                        old(self)@.made + 1
                    } else {
                        old(self)@.made
                    }
                },
                Reply::Failed(_) | Reply::TimedOut(_) => {
                    let message = match reply {
                        Reply::Failed(e) => "Protect request failed: "@ + e@,
                        Reply::TimedOut(secs) => "Protect request timed out after "@ + secs@
                            + "s"@,
                        _ => ""@,
                    };
                    &&& old(self)@.made < old(self)@.attempts ==> {
                        &&& action matches Action::RetryAfter { secs, error }
                        &&& secs == old(self)@.made
                        &&& error@ == message
                        &&& final(self)@.made == old(self)@.made + 1
                    }
                    &&& old(self)@.made >= old(self)@.attempts ==> (action matches Action::Finish(
                        Err(e),
                    ) && e@ == message) && final(self)@.made == old(self)@.made
                },
            },
            final(self)@.attempts == old(self)@.attempts,
    {
        match reply {
            Reply::Status(code) => {
                let shown = status_text(code);
                self.on_status(code, shown.as_str())
            },
            Reply::Failed(e) => {
                let mut message = "Protect request failed: ".to_owned();
                message.append(e.as_str());
                self.settle(true, message)
            },
            Reply::TimedOut(secs) => {
                let mut message = "Protect request timed out after ".to_owned();
                message.append(secs.as_str());
                message.append("s");
                self.settle(true, message)
            },
        }
    }
}

/// What a delivery that gets these verdicts, one per request, comes to: how
/// many requests it makes, and its result once it is over.
pub open spec fn course(p: Progress, verdicts: Seq<Verdict>) -> (nat, Option<ActionView>)
    decreases verdicts.len(),
{
    if verdicts.len() == 0 {
        (0, None)
    } else {
        let next = reaction(p, verdicts[0]);
        if next is RetryAfter {
            let later = course(progress_after(p, verdicts[0]), verdicts.drop_first());
            (later.0 + 1, later.1)
        } else {
            (1, Some(next))
        }
    }
}

/// The delivery before its first request.
pub open spec fn at_first(attempts: nat) -> Progress {
    Progress { attempts, made: 1 }
}

/// The attempts are bounded: a delivery never makes more requests than it may,
/// and is over once it has made them all.
pub proof fn lemma_attempts_are_bounded(attempts: nat, verdicts: Seq<Verdict>)
    requires
        attempts >= 1,
    ensures
        course(at_first(attempts), verdicts).0 <= attempts,
        verdicts.len() >= attempts ==> course(at_first(attempts), verdicts).1 is Some,
{
    lemma_course_is_bounded(at_first(attempts), verdicts);
}

proof fn lemma_course_is_bounded(p: Progress, verdicts: Seq<Verdict>)
    requires
        1 <= p.made <= p.attempts,
    ensures
        course(p, verdicts).0 <= p.attempts - p.made + 1,
        verdicts.len() >= p.attempts - p.made + 1 ==> course(p, verdicts).1 is Some,
    decreases verdicts.len(),
{
    if verdicts.len() > 0 && reaction(p, verdicts[0]) is RetryAfter {
        lemma_course_is_bounded(progress_after(p, verdicts[0]), verdicts.drop_first());
    }
}

/// A permanent error is not retried, and a success ends the delivery: the
/// first verdict that is not transient is the last request, and decides.
pub proof fn lemma_first_decision_is_final(p: Progress, transient: Seq<Verdict>, last: Verdict, after: Seq<Verdict>)
    requires
        1 <= p.made,
        p.made + transient.len() <= p.attempts,
        forall|i: int| 0 <= i < transient.len() ==> #[trigger] transient[i] is Transient,
        !(last is Transient),
    ensures
        course(p, transient.push(last) + after) == (
            transient.len() + 1,
            Some(
                match last {
                    Verdict::Permanent(message) => ActionView::Refuse(message),
                    _ => ActionView::Succeed,
                },
            ),
        ),
    decreases transient.len(),
{
    let all = transient.push(last) + after;
    if transient.len() == 0 {
        assert(all[0] == last);
    } else {
        let rest = transient.drop_first();
        assert(all[0] == transient[0]);
        assert(all.drop_first() =~= rest.push(last) + after);
        assert forall|i: int| 0 <= i < rest.len() implies #[trigger] rest[i] is Transient by {
            assert(transient[i + 1] is Transient);
        }
        lemma_first_decision_is_final(progress_after(p, all[0]), rest, last, after);
    }
}

/// Transient errors are retried until the attempts are exhausted, and the
/// message of the last one is reported.
pub proof fn lemma_exhausted_attempts_report_the_last_error(attempts: nat, verdicts: Seq<Verdict>)
    requires
        1 <= attempts == verdicts.len(),
        forall|i: int| 0 <= i < verdicts.len() ==> #[trigger] verdicts[i] is Transient,
    ensures
        course(at_first(attempts), verdicts) == (
            attempts,
            Some(ActionView::Fail(verdicts.last()->Transient_0)),
        ),
{
    lemma_exhausted_from(at_first(attempts), verdicts);
}

proof fn lemma_exhausted_from(p: Progress, verdicts: Seq<Verdict>)
    requires
        1 <= p.made,
        verdicts.len() >= 1,
        p.made + verdicts.len() == p.attempts + 1,
        forall|i: int| 0 <= i < verdicts.len() ==> #[trigger] verdicts[i] is Transient,
    ensures
        course(p, verdicts) == (
            verdicts.len(),
            Some(ActionView::Fail(verdicts.last()->Transient_0)),
        ),
    decreases verdicts.len(),
{
    assert(verdicts[0] is Transient);
    if verdicts.len() > 1 {
        let rest = verdicts.drop_first();
        assert forall|i: int| 0 <= i < rest.len() implies #[trigger] rest[i] is Transient by {
            assert(verdicts[i + 1] is Transient);
        }
        lemma_exhausted_from(progress_after(p, verdicts[0]), rest);
    }
}

/// The backoff is linear: before attempt `n + 1` the delivery waits `n`
/// seconds.
pub proof fn lemma_backoff_is_linear(p: Progress, v: Verdict)
    requires
        reaction(p, v) is RetryAfter,
    ensures
        reaction(p, v)->secs == p.made,
        progress_after(p, v).made == p.made + 1,
{
}

/// What a response leads to goes by its number: 2xx succeeds; 5xx, 408 and 429
/// are tried again, after as many seconds as attempts were made, as long as
/// attempts remain, and fail after the last; any other is refused for good.
pub proof fn lemma_response_by_number(p: Progress, code: u16, shown: Seq<char>)
    ensures
        ({
            let message = "Protect returned "@ + shown;
            let again = 500 <= code <= 599 || code == 408 || code == 429;
            let action = reaction(p, status_verdict(code, shown));
            let after = progress_after(p, status_verdict(code, shown));
            &&& 200 <= code <= 299 ==> action is Succeed
            &&& again && p.made < p.attempts ==> action == (ActionView::RetryAfter {
                secs: p.made,
                error: message,
            })
            &&& again && p.made >= p.attempts ==> action == ActionView::Fail(message)
            &&& !(200 <= code <= 299) && !again ==> action == ActionView::Refuse(message)
            &&& after.attempts == p.attempts
            &&& again && p.made < p.attempts ==> after.made == p.made + 1
            &&& !(again && p.made < p.attempts) ==> after.made == p.made
        }),
{
}

/// A request without a response is tried again as long as attempts remain, and
/// fails after the last, with what kept the response away.
pub proof fn lemma_no_response_is_tried_again(p: Progress, reply: Reply)
    requires
        !(reply is Status),
    ensures
        ({
            let message = match reply {
                Reply::TimedOut(secs) => "Protect request timed out after "@ + secs@ + "s"@,
                Reply::Failed(e) => "Protect request failed: "@ + e@,
                _ => ""@,
            };
            let after = progress_after(p, verdict(reply));
            &&& p.made < p.attempts ==> reaction(p, verdict(reply)) == (ActionView::RetryAfter {
                secs: p.made,
                error: message,
            }) && after.made == p.made + 1
            &&& p.made >= p.attempts ==> reaction(p, verdict(reply)) == ActionView::Fail(message)
                && after.made == p.made
            &&& after.attempts == p.attempts
        }),
{
}

} // verus!
