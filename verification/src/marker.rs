//! The signal-marking protocol: an iteration counter, a one-shot latch for
//! handler installation, and the start/stop decision rules that bound how many
//! begin/end markers the external observer sees.

use vstd::prelude::*;

verus! {

/// Abstract state of a [`SignalMarker`].
///
/// `begins` and `ends` count the begin/end signals raised so far, so that the
/// contracts can say exactly when a call raises a signal.
pub ghost struct MarkerView {
    /// Configured iteration budget: how many begin markers may be raised.
    pub budget: nat,
    /// Number of start calls made so far.
    pub count: nat,
    /// Whether the no-op signal dispositions have been installed.
    pub installed: bool,
    /// Number of begin signals raised so far.
    pub begins: nat,
    /// Number of end signals raised so far.
    pub ends: nat,
}

/// State after a start call: the counter advances by one, and a begin signal
/// is raised exactly when the pre-increment counter is still under budget.
pub open spec fn start_step(v: MarkerView) -> MarkerView {
    MarkerView {
        count: v.count + 1,
        begins: if v.count < v.budget { v.begins + 1 } else { v.begins },
        ..v
    }
}

/// Result code of a start call: 1 if the begin signal is raised, 0 if it is
/// suppressed because the budget is exhausted.
pub open spec fn start_code(v: MarkerView) -> i32 {
    if v.count < v.budget {
        1
    } else {
        0
    }
}

/// State after a stop call: an end signal is raised exactly when at least one
/// start has occurred and the counter is still within budget; the counter
/// itself never changes.
pub open spec fn stop_step(v: MarkerView) -> MarkerView {
    if 0 < v.count <= v.budget {
        MarkerView { ends: v.ends + 1, ..v }
    } else {
        v
    }
}

/// State after claiming the installation latch: installed from then on.
pub open spec fn claim_step(v: MarkerView) -> MarkerView {
    MarkerView { installed: true, ..v }
}

/// Result of claiming the installation latch: true only for the first claim.
pub open spec fn claim_result(v: MarkerView) -> bool {
    !v.installed
}

/// Raises the process's "begin measurement" signal against itself.
///
/// Relies on `nix::sys::signal::raise` to deliver SIGUSR1 to the calling
/// process. Delivery to self failing indicates a broken process state, so the
/// failure is fatal: the `unwrap` aborts rather than continuing with a
/// corrupted marking protocol.
#[verifier::external_body]
fn raise_begin() {
    nix::sys::signal::raise(nix::sys::signal::Signal::SIGUSR1).unwrap();
}

/// Raises the process's "end measurement" signal against itself.
///
/// Relies on `nix::sys::signal::raise` to deliver SIGUSR2 to the calling
/// process; a failed raise is fatal, as for the begin signal.
#[verifier::external_body]
fn raise_end() {
    nix::sys::signal::raise(nix::sys::signal::Signal::SIGUSR2).unwrap();
}

/// The signal-marking state: iteration budget, iteration counter, and the
/// installation latch. The caller that owns it decides where it lives; the
/// process-wide instance wraps one in a lazily initialized global.
pub struct SignalMarker {
    budget: usize,
    count: usize,
    installed: bool,
    begins: Ghost<nat>,
    ends: Ghost<nat>,
}

impl View for SignalMarker {
    type V = MarkerView;

    closed spec fn view(&self) -> MarkerView {
        MarkerView {
            budget: self.budget as nat,
            count: self.count as nat,
            installed: self.installed,
            begins: self.begins@,
            ends: self.ends@,
        }
    }
}

impl SignalMarker {
    /// A fresh marker: counter at zero, nothing installed, no signal raised.
    pub fn new(budget: usize) -> (m: Self)
        ensures
            m@ == (MarkerView {
                budget: budget as nat,
                count: 0,
                installed: false,
                begins: 0,
                ends: 0,
            }),
    {
        SignalMarker {
            budget,
            count: 0,
            installed: false,
            begins: Ghost(0),
            ends: Ghost(0),
        }
    }

    /// The configured iteration budget.
    pub fn budget(&self) -> (r: usize)
        ensures
            r == self@.budget,
    {
        self.budget
    }

    /// How many start calls have been made so far.
    pub fn count(&self) -> (r: usize)
        ensures
            r == self@.count,
    {
        self.count
    }

    /// Whether the installation latch has been claimed.
    pub fn installed(&self) -> (r: bool)
        ensures
            r == self@.installed,
    {
        self.installed
    }

    /// One-shot latch for handler installation: returns true exactly on the
    /// first call, telling the caller to perform the one OS-level installation
    /// of the two no-op dispositions; every later call returns false.
    pub fn claim_install(&mut self) -> (r: bool)
        ensures
            final(self)@ == claim_step(old(self)@),
            r == claim_result(old(self)@),
    {
        let first = !self.installed;
        self.installed = true;
        first
    }

    /// Marks the start of a measured iteration: advances the counter and, if
    /// the pre-increment counter is still under budget, raises the begin
    /// signal and returns 1; otherwise raises nothing and returns 0.
    ///
    /// The handlers must have been installed first, so that installation
    /// happens before any signal is raised.
    pub fn start_signal(&mut self) -> (r: i32)
        requires
            old(self)@.installed,
            old(self)@.count < usize::MAX,
        ensures
            final(self)@ == start_step(old(self)@),
            r == start_code(old(self)@),
    {
        let curr = self.count;
        self.count = curr + 1;
        if curr < self.budget {
            raise_begin();
            proof {
                self.begins@ = self.begins@ + 1;
            }
            1
        } else {
            0
        }
    }

    /// Marks the end of a measured iteration: if at least one start has
    /// occurred and the counter is still within budget, raises the end
    /// signal; otherwise it is a silent no-op. The counter never changes.
    ///
    /// The handlers must have been installed first, so that installation
    /// happens before any signal is raised.
    pub fn stop_signal(&mut self)
        requires
            old(self)@.installed,
        ensures
            final(self)@ == stop_step(old(self)@),
    {
        let curr = self.count;
        if curr > 0 && curr <= self.budget {
            raise_end();
            proof {
                self.ends@ = self.ends@ + 1;
            }
        }
    }
}

/// The state after `m` consecutive start calls.
pub open spec fn after_starts(v: MarkerView, m: nat) -> MarkerView
    decreases m,
{
    if m == 0 {
        v
    } else {
        start_step(after_starts(v, (m - 1) as nat))
    }
}

/// After `m` start calls from a fresh marker the counter equals `m`, exactly
/// `min(m, budget)` begin signals have been raised, and nothing else changed.
pub proof fn lemma_after_starts(v: MarkerView, m: nat)
    requires
        v.count == 0,
        v.begins == 0,
    ensures
        after_starts(v, m).count == m,
        after_starts(v, m).begins == (if m <= v.budget {
            m as int
        } else {
            v.budget as int
        }),
        after_starts(v, m).budget == v.budget,
        after_starts(v, m).installed == v.installed,
        after_starts(v, m).ends == v.ends,
    decreases m,
{
    if m > 0 {
        lemma_after_starts(v, (m - 1) as nat);
    }
}

/// In any sequence of `m` start calls from a fresh marker, the k-th call
/// (1-indexed) sees the distinct pre-increment counter value `k - 1` and
/// returns 1 exactly when `k <= budget`; after all `m` calls the counter is
/// `m` and exactly `min(m, budget)` begin signals have been raised. So `T`
/// callers that each start once, in whatever order their calls are
/// serialized, raise `min(T, budget)` begin markers in total, no two of them
/// observing the same counter slot.
pub proof fn lemma_start_sequence(v: MarkerView, m: nat, k: nat)
    requires
        v.count == 0,
        v.begins == 0,
        1 <= k <= m,
    ensures
        after_starts(v, m).count == m,
        after_starts(v, m).begins == (if m <= v.budget {
            m as int
        } else {
            v.budget as int
        }),
        after_starts(v, (k - 1) as nat).count == k - 1,
        start_code(after_starts(v, (k - 1) as nat)) == (if k <= v.budget {
            1i32
        } else {
            0i32
        }),
{
    lemma_after_starts(v, m);
    lemma_after_starts(v, (k - 1) as nat);
}

/// A stop call raises nothing when no start has occurred yet or when the
/// counter has passed the budget: the whole state, the count of end signals
/// included, is unchanged.
pub proof fn lemma_stop_noop(v: MarkerView)
    requires
        v.count == 0 || v.count > v.budget,
    ensures
        stop_step(v) == v,
{
}

/// One call into the marker, as seen by the abstract state.
pub enum MarkerEvent {
    /// A `claim_install` call.
    ClaimInstall,
    /// A `start_signal` call.
    Start,
    /// A `stop_signal` call.
    Stop,
}

/// The state after one call.
pub open spec fn event_step(v: MarkerView, e: MarkerEvent) -> MarkerView {
    match e {
        MarkerEvent::ClaimInstall => claim_step(v),
        MarkerEvent::Start => start_step(v),
        MarkerEvent::Stop => stop_step(v),
    }
}

/// The state after a sequence of calls, first call first.
pub open spec fn run_events(v: MarkerView, es: Seq<MarkerEvent>) -> MarkerView
    decreases es.len(),
{
    if es.len() == 0 {
        v
    } else {
        run_events(event_step(v, es[0]), es.drop_first())
    }
}

/// Running a concatenation of call sequences is running one after the other.
proof fn lemma_run_events_append(v: MarkerView, a: Seq<MarkerEvent>, b: Seq<MarkerEvent>)
    ensures
        run_events(v, a + b) == run_events(run_events(v, a), b),
    decreases a.len(),
{
    if a.len() == 0 {
        assert(a + b =~= b);
    } else {
        assert((a + b).drop_first() =~= a.drop_first() + b);
        lemma_run_events_append(event_step(v, a[0]), a.drop_first(), b);
    }
}

/// No call ever clears the installation latch.
proof fn lemma_installed_persists(v: MarkerView, es: Seq<MarkerEvent>)
    requires
        v.installed,
    ensures
        run_events(v, es).installed,
    decreases es.len(),
{
    if es.len() > 0 {
        lemma_installed_persists(event_step(v, es[0]), es.drop_first());
    }
}

/// The installation latch fires at most once per run: once some call has
/// claimed it (position `i`), a claim at any later position `j` returns
/// false, whatever starts and stops come between — so the OS-level
/// installation it guards is performed at most once, however many times and
/// from however many serialized callers start and stop are invoked.
pub proof fn lemma_claim_at_most_once(
    v: MarkerView,
    es: Seq<MarkerEvent>,
    i: int,
    j: int,
)
    requires
        0 <= i < j < es.len(),
        es[i] == MarkerEvent::ClaimInstall,
        es[j] == MarkerEvent::ClaimInstall,
    ensures
        !claim_result(run_events(v, es.take(j))),
{
    let prefix = es.take(i);
    let claimed = es.take(i + 1);
    let between = es.subrange(i + 1, j);
    assert(claimed =~= prefix + seq![es[i]]);
    lemma_run_events_append(v, prefix, seq![es[i]]);
    let w = run_events(v, prefix);
    assert(seq![es[i]].drop_first() =~= Seq::<MarkerEvent>::empty());
    assert(run_events(w, seq![es[i]]) == run_events(
        event_step(w, es[i]),
        Seq::<MarkerEvent>::empty(),
    ));
    assert(run_events(v, claimed) == event_step(w, es[i]));
    assert(run_events(v, claimed).installed);
    assert(es.take(j) =~= claimed + between);
    lemma_run_events_append(v, claimed, between);
    lemma_installed_persists(run_events(v, claimed), between);
}

} // verus!
