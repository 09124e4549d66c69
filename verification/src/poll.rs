//! Asking again until something has settled, with pauses in between.

use vstd::arithmetic::power2::pow2;
use vstd::prelude::*;

use crate::text;
use crate::text::{opt_str, same};

verus! {

/// Pauses that double up to a longest one, in seconds.
#[derive(Debug)]
pub struct Backoff {
    next: u64,
    longest: u64,
}

/// The shorter of a pause and the longest one.
pub open spec fn capped(pause: int, longest: int) -> int {
    if pause < longest {
        pause
    } else {
        longest
    }
}

impl Backoff {
    #[verifier::type_invariant]
    spec fn well_formed(self) -> bool {
        self.next <= self.longest <= u64::MAX / 2
    }

    /// The pause that comes next.
    pub closed spec fn next(self) -> int {
        self.next as int
    }

    /// The longest pause.
    pub closed spec fn longest(self) -> int {
        self.longest as int
    }

    /// Pauses that begin with one and double up to another. Twice the longest has to fit a number.
    pub fn new(first: u64, longest: u64) -> (b: Backoff)
        requires
            first <= longest <= u64::MAX / 2,
        ensures
            b.next() == first,
            b.longest() == longest,
    {
        Backoff { next: first, longest }
    }

    /// The pause to make now.
    pub fn pause(&mut self) -> (secs: u64)
        ensures
            secs == old(self).next(),
            paused(*old(self), *final(self)),
    {
        proof {
            use_type_invariant(&*self);
        }
        let secs = self.next;
        self.next = if 2 * secs < self.longest {
            2 * secs
        } else {
            self.longest
        };
        secs
    }
}

/// Whether a pause is twice the one before it, up to the longest.
spec fn doubles(pauses: Seq<int>, longest: int, i: int) -> bool {
    pauses[i + 1] == capped(2 * pauses[i], longest)
}

/// Pauses that follow each other are twice as long each time, up to the longest.
proof fn lemma_doubling(pauses: Seq<int>, longest: int, n: int)
    requires
        0 <= n < pauses.len(),
        0 < pauses[0] <= longest,
        forall|i: int| 0 <= i < pauses.len() - 1 ==> #[trigger] doubles(pauses, longest, i),
    ensures
        pauses[n] == capped(pauses[0] * pow2(n as nat), longest),
        pauses[0] <= pauses[n] <= longest,
    decreases n,
{
    let first = pauses[0];
    if n == 0 {
        vstd::arithmetic::power2::lemma2_to64();
        assert(first * pow2(0) == first) by (nonlinear_arith)
            requires
                pow2(0) == 1,
        ;
    } else {
        let m = n - 1;
        lemma_doubling(pauses, longest, m);
        assert(doubles(pauses, longest, m));
        vstd::arithmetic::power2::lemma_pow2_unfold(n as nat);
        assert(first * pow2(n as nat) == 2 * (first * pow2(m as nat))) by (nonlinear_arith)
            requires
                pow2(n as nat) == 2 * pow2(m as nat),
        ;
    }
}

/// What pauses become when one is made.
pub open spec fn paused(before: Backoff, after: Backoff) -> bool {
    &&& after.next() == capped(2 * before.next(), before.longest())
    &&& after.longest() == before.longest()
}

/// Whether a pause was the next one of a backoff, and another state came of it.
pub open spec fn paused_once(states: Seq<Backoff>, pauses: Seq<u64>, i: int) -> bool {
    pauses[i] == states[i].next() && paused(states[i], states[i + 1])
}

/// The pauses of one backoff, made one after the other, double until they reach the longest, and stay
/// there.
pub proof fn pauses_double(states: Seq<Backoff>, pauses: Seq<u64>, n: int)
    requires
        states.len() == pauses.len() + 1,
        forall|i: int| 0 <= i < pauses.len() ==> #[trigger] paused_once(states, pauses, i),
        0 < states[0].next() <= states[0].longest(),
        0 <= n < pauses.len(),
    ensures
        pauses[n] == capped(states[0].next() * pow2(n as nat), states[0].longest()),
        states[0].next() * pow2(n as nat) <= states[0].longest() ==> pauses[n] == states[0].next()
            * pow2(n as nat),
        states[0].next() * pow2(n as nat) >= states[0].longest() ==> pauses[n]
            == states[0].longest(),
{
    let longest = states[0].longest();
    let nexts = Seq::new(states.len(), |i: int| states[i].next());
    assert forall|i: int| 0 <= i < nexts.len() - 1 implies #[trigger] doubles(
        nexts,
        longest,
        i,
    ) by {
        lemma_longest_stays(states, pauses, i);
        assert(paused_once(states, pauses, i));
    }
    lemma_doubling(nexts, longest, n);
    assert(paused_once(states, pauses, n));
}

proof fn lemma_longest_stays(states: Seq<Backoff>, pauses: Seq<u64>, n: int)
    requires
        states.len() == pauses.len() + 1,
        forall|i: int| 0 <= i < pauses.len() ==> #[trigger] paused_once(states, pauses, i),
        0 <= n < states.len(),
    ensures
        states[n].longest() == states[0].longest(),
    decreases n,
{
    if n > 0 {
        lemma_longest_stays(states, pauses, n - 1);
        assert(paused_once(states, pauses, n - 1));
    }
}

/// A bounded number of questions, with a pause after each that settled nothing.
#[derive(Debug)]
pub struct Poll {
    left: u32,
    pauses: Backoff,
}

impl Poll {
    /// How many questions may still be asked.
    pub closed spec fn left(self) -> int {
        self.left as int
    }

    pub closed spec fn next(self) -> int {
        self.pauses.next()
    }

    pub closed spec fn longest(self) -> int {
        self.pauses.longest()
    }

    /// Waits for a DNS change to spread.
    pub fn for_dns() -> (p: Poll)
        ensures
            p.left() == 20,
            p.next() == 2,
            p.longest() == 30,
    {
        Poll { left: 20, pauses: Backoff::new(2, 30) }
    }

    /// Waits for an instance to get a public address.
    pub fn for_public_ip() -> (p: Poll)
        ensures
            p.left() == 30,
            p.next() == 2,
            p.longest() == 30,
    {
        Poll { left: 30, pauses: Backoff::new(2, 30) }
    }

    /// Waits for an instance to be terminated.
    pub fn for_termination() -> (p: Poll)
        ensures
            p.left() == 30,
            p.next() == 5,
            p.longest() == 5,
    {
        Poll { left: 30, pauses: Backoff::new(5, 5) }
    }

    /// Whether another question may be asked.
    pub fn may_ask(&self) -> (b: bool)
        ensures
            b == (self.left() > 0),
    {
        self.left > 0
    }

    /// Counts a question that settled nothing, and gives the pause to make after it.
    pub fn pause(&mut self) -> (secs: u64)
        requires
            old(self).left() > 0,
        ensures
            secs == old(self).next(),
            final(self).left() == old(self).left() - 1,
            final(self).next() == capped(2 * old(self).next(), old(self).longest()),
            final(self).longest() == old(self).longest(),
    {
        self.left = self.left - 1;
        self.pauses.pause()
    }
}

/// What to do after an answer.
#[derive(Debug)]
pub enum Step {
    /// It has settled.
    Done,
    /// It has not: pause for that many seconds.
    Pause(u64),
}

/// What a poll becomes when a question settled nothing.
pub open spec fn went_on(before: Poll, after: Poll, secs: u64) -> bool {
    &&& secs == before.next()
    &&& after.left() == before.left() - 1
    &&& after.next() == capped(2 * before.next(), before.longest())
    &&& after.longest() == before.longest()
}

/// Whether a question of a poll was allowed and settled nothing.
pub open spec fn asked_again(states: Seq<Poll>, pauses: Seq<u64>, i: int) -> bool {
    states[i].left() > 0 && went_on(states[i], states[i + 1], pauses[i])
}

/// A poll that settles nothing comes to an end: it makes no more pauses than it had questions left,
/// and they double until they reach the longest.
pub proof fn polls_come_to_an_end(states: Seq<Poll>, pauses: Seq<u64>, n: int)
    requires
        states.len() == pauses.len() + 1,
        forall|i: int| 0 <= i < pauses.len() ==> #[trigger] asked_again(states, pauses, i),
        states[0].left() >= 0,
        0 < states[0].next() <= states[0].longest(),
        0 <= n < pauses.len(),
    ensures
        states[0].left() >= pauses.len(),
        pauses[n] == capped(states[0].next() * pow2(n as nat), states[0].longest()),
        states[0].next() * pow2(n as nat) <= states[0].longest() ==> pauses[n] == states[0].next()
            * pow2(n as nat),
        states[0].next() * pow2(n as nat) >= states[0].longest() ==> pauses[n]
            == states[0].longest(),
{
    let longest = states[0].longest();
    let nexts = Seq::new(states.len(), |i: int| states[i].next());
    assert forall|i: int| 0 <= i < nexts.len() - 1 implies #[trigger] doubles(
        nexts,
        longest,
        i,
    ) by {
        lemma_poll_runs(states, pauses, i);
        assert(asked_again(states, pauses, i));
    }
    lemma_doubling(nexts, longest, n);
    assert(asked_again(states, pauses, n));
    let last = pauses.len() - 1;
    lemma_poll_runs(states, pauses, last);
    assert(asked_again(states, pauses, last));
}

proof fn lemma_poll_runs(states: Seq<Poll>, pauses: Seq<u64>, n: int)
    requires
        states.len() == pauses.len() + 1,
        forall|i: int| 0 <= i < pauses.len() ==> #[trigger] asked_again(states, pauses, i),
        0 <= n < states.len(),
    ensures
        states[n].left() == states[0].left() - n,
        states[n].longest() == states[0].longest(),
    decreases n,
{
    if n > 0 {
        lemma_poll_runs(states, pauses, n - 1);
        assert(asked_again(states, pauses, n - 1));
    }
}

/// The step after an answer of a poll.
pub open spec fn stepped(before: Poll, after: Poll, step: Step, settled: bool) -> bool {
    match step {
        Step::Done => settled && after == before,
        Step::Pause(secs) => !settled && went_on(before, after, secs),
    }
}

fn step(poll: &mut Poll, settled: bool) -> (s: Step)
    requires
        old(poll).left() > 0,
    ensures
        stepped(*old(poll), *final(poll), s, settled),
{
    if settled {
        Step::Done
    } else {
        Step::Pause(poll.pause())
    }
}

/// The step after Route 53 told the status of a change, or none. The change has spread where it is
/// in sync.
pub fn dns_step(poll: &mut Poll, status: Option<&str>) -> (s: Step)
    requires
        old(poll).left() > 0,
    ensures
        stepped(*old(poll), *final(poll), s, opt_str(status) == Some("INSYNC"@)),
{
    let settled = match status {
        Some(status) => same(status, "INSYNC"),
        None => false,
    };
    step(poll, settled)
}

/// The step after EC2 told the state of an instance, or none.
pub fn termination_step(poll: &mut Poll, state: Option<&str>) -> (s: Step)
    requires
        old(poll).left() > 0,
    ensures
        stepped(*old(poll), *final(poll), s, opt_str(state) == Some("terminated"@)),
{
    let settled = match state {
        Some(state) => same(state, "terminated"),
        None => false,
    };
    step(poll, settled)
}

/// What EC2 answered to the question for an instance's public address.
#[derive(Debug)]
pub enum AddressReply {
    /// The instance is described, with an address or without one.
    Described(Option<String>),
    /// The service refused, with a code or without one.
    Refused(Option<String>),
    /// The question did not reach the service.
    Failed,
}

/// What to do after such an answer.
#[derive(Debug)]
pub enum AddressStep {
    Found(String),
    /// Pause for that many seconds. The instance may not be known yet.
    Pause { secs: u64, not_found: bool },
    GiveUp,
}

/// The code of a refusal that says the instance is not known yet.
pub open spec fn is_not_found(code: Option<String>) -> bool {
    text::opt(code) == Some("InvalidInstanceID.NotFound"@)
}

/// The step after an answer to the question for an instance's public address. An instance without
/// one, and one that is not known yet, are asked for again; any other refusal ends it.
pub fn address_step(poll: &mut Poll, reply: &AddressReply) -> (s: AddressStep)
    requires
        old(poll).left() > 0,
    ensures
        match (*reply, s) {
            (AddressReply::Described(Some(ip)), AddressStep::Found(found)) => found@ == ip@
                && *final(poll) == *old(poll),
            (AddressReply::Described(None), AddressStep::Pause { secs, not_found }) => !not_found
                && went_on(*old(poll), *final(poll), secs),
            (AddressReply::Refused(code), AddressStep::Pause { secs, not_found }) => is_not_found(
                code,
            ) && not_found && went_on(*old(poll), *final(poll), secs),
            (AddressReply::Refused(code), AddressStep::GiveUp) => !is_not_found(code)
                && *final(poll) == *old(poll),
            (AddressReply::Failed, AddressStep::GiveUp) => *final(poll) == *old(poll),
            _ => false,
        },
{
    match reply {
        AddressReply::Described(Some(ip)) => AddressStep::Found(ip.clone()),
        AddressReply::Described(None) => AddressStep::Pause {
            secs: poll.pause(),
            not_found: false,
        },
        AddressReply::Refused(code) => {
            let not_found = match code {
                Some(code) => same(code.as_str(), "InvalidInstanceID.NotFound"),
                None => false,
            };
            if not_found {
                AddressStep::Pause { secs: poll.pause(), not_found: true }
            } else {
                AddressStep::GiveUp
            }
        },
        AddressReply::Failed => AddressStep::GiveUp,
    }
}

/// How long Rancher may take to answer, in seconds.
pub const RANCHER_TIMEOUT_SECS: u64 = 600;

/// The pauses between questions to Rancher.
pub fn rancher_pauses() -> (b: Backoff)
    ensures
        b.next() == 5,
        b.longest() == 60,
{
    Backoff::new(5, 60)
}

/// Whether Rancher may still be waited for.
pub fn may_wait(elapsed_secs: u64, timeout_secs: u64) -> (b: bool)
    ensures
        b == (elapsed_secs < timeout_secs),
{
    elapsed_secs < timeout_secs
}

/// The step after Rancher answered with an HTTP status, or did not answer. It is ready where the
/// status is a success or a redirection.
pub fn rancher_step(pauses: &mut Backoff, status: Option<u16>) -> (s: Step)
    ensures
        ({
            let ready = status matches Some(code) && 200 <= code < 400;
            match s {
                Step::Done => ready && *final(pauses) == *old(pauses),
                Step::Pause(secs) => {
                    &&& !ready
                    &&& secs == old(pauses).next()
                    &&& paused(*old(pauses), *final(pauses))
                },
            }
        }),
{
    match status {
        Some(code) => {
            if 200 <= code && code < 400 {
                return Step::Done;
            }
        },
        None => {},
    }
    Step::Pause(pauses.pause())
}

/// Of the refusals, only that of an instance that is not known yet is waited out.
pub proof fn only_an_unknown_instance_is_waited_for(code: String)
    ensures
        is_not_found(Some(code)) <==> code@ == "InvalidInstanceID.NotFound"@,
        !is_not_found(None),
{
}

/// A change is waited for until it is in sync, an instance until it is terminated, and Rancher until
/// it answers with a success or a redirection; until then each goes on after a pause.
pub proof fn waiting_ends_when_settled(
    poll: &mut Poll,
    pauses: &mut Backoff,
    text: Option<&str>,
    status: Option<u16>,
    step: Step,
)
    ensures
        call_ensures(dns_step, (poll, text), step) ==> (step is Done <==> opt_str(text) == Some(
            "INSYNC"@,
        )),
        call_ensures(termination_step, (poll, text), step) ==> (step is Done <==> opt_str(text)
            == Some("terminated"@)),
        call_ensures(rancher_step, (pauses, status), step) ==> (step is Done <==> {
            &&& status is Some
            &&& 200 <= status->0 <= 399
        }),
{
}

} // verus!
