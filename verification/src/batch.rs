//! A batch: the calls of one plan, made one at a time, and the messages that
//! tell of them.
//!
//! The batch itself starts no process. It hands out each call together with
//! the messages to deliver before it, and takes back how the call ended.

use vstd::prelude::*;

use crate::invocation::{
    full_plan, lemma_unselected_program_is_skipped, plan_all, plan_preset, plan_selected,
    replay_plan, selective_plan, Invocation, InvocationView,
};
use crate::model::{Preset, Program, ProgramView};
use crate::report::{report, Outcome, OutcomeView};

verus! {

/// The message that closes every batch.
pub open spec fn complete_marker() -> Seq<char> {
    "Build complete."@
}

/// Where a batch stands.
#[derive(Clone, Copy, Debug, PartialEq, Eq, Structural)]
pub enum Phase {
    /// Nothing was handed out yet.
    Idle,
    /// A call was handed out and its outcome is awaited.
    Running,
    /// The closing message was handed out.
    Done,
}

/// What a batch asks for next: messages to deliver, in order, and then the
/// call to make. Without a call the batch is over.
#[derive(Debug, PartialEq, Eq)]
pub struct Step {
    pub messages: Vec<String>,
    pub run: Option<Invocation>,
}

/// What a [`Step`] holds, as plain sequences.
pub struct StepView {
    pub messages: Seq<Seq<char>>,
    pub run: Option<InvocationView>,
}

impl View for Step {
    type V = StepView;

    open spec fn view(&self) -> StepView {
        StepView { messages: self.messages.deep_view(), run: self.run.deep_view() }
    }
}

/// A batch as plain values: the plan, the index of the call that is awaited
/// or the number of calls made, and the phase.
pub struct BatchView {
    pub plan: Seq<InvocationView>,
    pub cursor: nat,
    pub phase: Phase,
}

impl BatchView {
    /// A batch over `plan` of which nothing was handed out yet.
    pub open spec fn fresh(plan: Seq<InvocationView>) -> BatchView {
        BatchView { plan, cursor: 0, phase: Phase::Idle }
    }

    /// The cursor fits the phase.
    pub open spec fn wf(self) -> bool {
        match self.phase {
            Phase::Idle => self.cursor == 0,
            Phase::Running => self.cursor < self.plan.len(),
            Phase::Done => self.cursor == self.plan.len(),
        }
    }

    /// Moves on to call `at`: announces and hands out that call, or, where
    /// the plan has no such call, closes the batch.
    pub open spec fn enter(self, at: nat) -> (BatchView, StepView) {
        if at < self.plan.len() {
            (
                BatchView { cursor: at, phase: Phase::Running, ..self },
                StepView {
                    messages: seq![self.plan[at as int].announcement()],
                    run: Some(self.plan[at as int]),
                },
            )
        } else {
            (
                BatchView { cursor: self.plan.len(), phase: Phase::Done, ..self },
                StepView { messages: seq![complete_marker()], run: None },
            )
        }
    }

    /// The first step of an idle batch.
    pub open spec fn start(self) -> (BatchView, StepView) {
        self.enter(0)
    }

    /// The step of a running batch whose awaited call ended with `outcome`:
    /// the report of that call, then the move to the next call.
    pub open spec fn advance(self, outcome: OutcomeView) -> (BatchView, StepView) {
        let (next, step) = self.enter(self.cursor + 1);
        (next, StepView { messages: report(outcome) + step.messages, run: step.run })
    }
}

/// How far a batch has come.
enum Progress {
    Idle,
    Awaiting(usize),
    Done,
}

/// The calls of one plan and how far they have come.
pub struct Batch {
    plan: Vec<Invocation>,
    progress: Progress,
}

impl View for Batch {
    type V = BatchView;

    closed spec fn view(&self) -> BatchView {
        match self.progress {
            Progress::Idle => BatchView::fresh(self.plan.deep_view()),
            Progress::Awaiting(at) => BatchView {
                plan: self.plan.deep_view(),
                cursor: at as nat,
                phase: Phase::Running,
            },
            Progress::Done => BatchView {
                plan: self.plan.deep_view(),
                cursor: self.plan@.len(),
                phase: Phase::Done,
            },
        }
    }
}

impl Batch {
    #[verifier::type_invariant]
    spec fn inv(self) -> bool {
        self@.wf()
    }

    /// A batch over `plan`, idle.
    pub fn new(plan: Vec<Invocation>) -> (batch: Batch)
        ensures
            batch@ == BatchView::fresh(plan.deep_view()),
    {
        Batch { plan, progress: Progress::Idle }
    }

    /// A batch that builds each program with a selected feature, with those
    /// features.
    pub fn selective(programs: &Vec<Program>, output_dir: &Option<String>) -> (batch: Batch)
        ensures
            batch@ == BatchView::fresh(
                selective_plan(programs.deep_view(), output_dir.deep_view()),
            ),
    {
        Batch::new(plan_selected(programs, output_dir))
    }

    /// A batch that builds every program, whatever is selected: with the one
    /// fixed feature where `forced` is set, with none where it is not.
    pub fn everything(programs: &Vec<Program>, forced: bool, output_dir: &Option<String>) -> (batch:
        Batch)
        ensures
            batch@ == BatchView::fresh(
                full_plan(programs.deep_view(), forced, output_dir.deep_view()),
            ),
    {
        Batch::new(plan_all(programs, forced, output_dir))
    }

    /// A batch that builds what `preset` holds, entry by entry. The programs
    /// serve only to find each entry's directory.
    pub fn replay(preset: &Preset, programs: &Vec<Program>, output_dir: &Option<String>) -> (batch:
        Batch)
        ensures
            batch@ == BatchView::fresh(
                replay_plan(preset@, programs.deep_view(), output_dir.deep_view()),
            ),
    {
        Batch::new(plan_preset(preset, programs, output_dir))
    }

    /// Gives the batch up: it is done, and hands out nothing more. This is
    /// for a batch whose messages nobody takes any longer.
    pub fn abandon(&mut self)
        ensures
            final(self)@ == (BatchView {
                cursor: old(self)@.plan.len(),
                phase: Phase::Done,
                ..old(self)@
            }),
    {
        self.progress = Progress::Done;
    }

    /// Where the batch stands.
    pub fn phase(&self) -> (phase: Phase)
        ensures
            phase == self@.phase,
            self@.wf(),
    {
        proof {
            use_type_invariant(self);
        }
        match self.progress {
            Progress::Idle => Phase::Idle,
            Progress::Awaiting(_) => Phase::Running,
            Progress::Done => Phase::Done,
        }
    }

    /// Moves on to call `at` or closes the batch.
    fn enter(&mut self, at: usize) -> (step: Step)
        ensures
            (final(self)@, step@) == old(self)@.enter(at as nat),
    {
        if at < self.plan.len() {
            let mut messages: Vec<String> = Vec::new();
            messages.push(self.plan[at].announcement());
            let call = self.plan[at].clone();
            self.progress = Progress::Awaiting(at);
            assert(messages.deep_view() =~= seq![self.plan.deep_view()[at as int].announcement()]);
            Step { messages, run: Some(call) }
        } else {
            let mut messages: Vec<String> = Vec::new();
            messages.push("Build complete.".to_owned());
            self.progress = Progress::Done;
            assert(messages.deep_view() =~= seq![complete_marker()]);
            Step { messages, run: None }
        }
    }

    /// Begins the batch. An idle batch announces and hands out its first
    /// call, or closes at once where its plan is empty; any other batch stays
    /// as it is and hands out nothing.
    pub fn start(&mut self) -> (step: Option<Step>)
        ensures
            old(self)@.phase == Phase::Idle ==> step is Some && (final(self)@, step->0@) == old(
                self,
            )@.start(),
            old(self)@.phase != Phase::Idle ==> step is None && final(self)@ == old(self)@,
    {
        match self.progress {
            Progress::Idle => Some(self.enter(0)),
            _ => None,
        }
    }

    /// Takes the outcome of the awaited call. A running batch reports that
    /// call and then announces and hands out the next one, or closes where
    /// it was the last; any other batch stays as it is and hands out nothing.
    pub fn advance(&mut self, outcome: &Outcome) -> (step: Option<Step>)
        ensures
            old(self)@.phase == Phase::Running ==> step is Some && (final(self)@, step->0@) == old(
                self,
            )@.advance(outcome@),
            old(self)@.phase != Phase::Running ==> step is None && final(self)@ == old(self)@,
    {
        proof {
            use_type_invariant(&*self);
        }
        match self.progress {
            Progress::Awaiting(at) => {
                let mut messages = outcome.report();
                let total = self.plan.len();
                assert(at < total);
                let mut step = self.enter(at + 1);
                let ghost told = messages;
                let ghost tail = step.messages;
                messages.append(&mut step.messages);
                proof {
                    assert(messages.deep_view() =~= told.deep_view() + tail.deep_view()) by {
                        assert(messages@ == told@ + tail@);
                        assert(messages.deep_view().len() == told@.len() + tail@.len());
                        assert forall|i: int| 0 <= i < messages@.len() implies messages.deep_view()[i]
                            == (told.deep_view() + tail.deep_view())[i] by {
                            if i < told@.len() {
                                assert(messages@[i] == told@[i]);
                            } else {
                                assert(messages@[i] == tail@[i - told@.len()]);
                            }
                        }
                    }
                }
                Some(Step { messages, run: step.run })
            },
            _ => None,
        }
    }
}

/// What a running batch hands out while it is fed `outcomes`, one per call
/// and in order, and where it stands afterwards. Outcomes that come when no
/// call is awaited are left unread.
pub open spec fn feed(batch: BatchView, outcomes: Seq<OutcomeView>) -> (BatchView, Seq<Seq<char>>)
    decreases outcomes.len(),
{
    if outcomes.len() == 0 || batch.phase != Phase::Running {
        (batch, Seq::empty())
    } else {
        let (next, step) = batch.advance(outcomes.first());
        let (end, rest) = feed(next, outcomes.drop_first());
        (end, step.messages + rest)
    }
}

/// Every message that a batch over `plan` hands out from its start on while
/// its calls end with `outcomes`, and where it stands afterwards.
pub open spec fn run(plan: Seq<InvocationView>, outcomes: Seq<OutcomeView>) -> (
    BatchView,
    Seq<Seq<char>>,
) {
    let (begun, step) = BatchView::fresh(plan).start();
    let (end, rest) = feed(begun, outcomes);
    (end, step.messages + rest)
}

/// The messages of one call: its announcement, then its report.
pub open spec fn call_messages(call: InvocationView, outcome: OutcomeView) -> Seq<Seq<char>> {
    seq![call.announcement()] + report(outcome)
}

/// The messages of the calls from call `from` up to, not including, call
/// `until`, call after call.
pub open spec fn calls_told(
    plan: Seq<InvocationView>,
    outcomes: Seq<OutcomeView>,
    from: nat,
    until: nat,
) -> Seq<Seq<char>> {
    Seq::new(
        (until - from) as nat,
        |i: int| call_messages(plan[from + i], outcomes[from + i]),
    ).flatten()
}

/// The whole of what a batch tells: the messages of each call in plan order,
/// none of one call among those of another, and then the closing message.
pub open spec fn transcript(plan: Seq<InvocationView>, outcomes: Seq<OutcomeView>) -> Seq<
    Seq<char>,
> {
    calls_told(plan, outcomes, 0, plan.len()) + seq![complete_marker()]
}

/// The messages from call `from` on are those of that call, then those of
/// the calls behind it.
proof fn lemma_calls_told_unfold(
    plan: Seq<InvocationView>,
    outcomes: Seq<OutcomeView>,
    from: nat,
    until: nat,
)
    requires
        from < until,
    ensures
        calls_told(plan, outcomes, from, until) == call_messages(
            plan[from as int],
            outcomes[from as int],
        ) + calls_told(plan, outcomes, from + 1, until),
{
    let here = Seq::new(
        (until - from) as nat,
        |i: int| call_messages(plan[from + i], outcomes[from + i]),
    );
    let behind = Seq::new(
        (until - (from + 1)) as nat,
        |i: int| call_messages(plan[from + 1 + i], outcomes[from + 1 + i]),
    );
    assert(here.drop_first() =~= behind);
    assert(here.first() == call_messages(plan[from as int], outcomes[from as int]));
}

/// No call, no message.
proof fn lemma_calls_told_none(plan: Seq<InvocationView>, outcomes: Seq<OutcomeView>, at: nat)
    ensures
        calls_told(plan, outcomes, at, at) == Seq::<Seq<char>>::empty(),
{
    assert(calls_told(plan, outcomes, at, at) =~= Seq::<Seq<char>>::empty());
}

/// A batch that awaits a call and is fed the outcomes of all calls from that
/// one on hands out the report of that call, the messages of the calls
/// behind it and the closing message, and is done.
proof fn lemma_feed_to_end(batch: BatchView, outcomes: Seq<OutcomeView>)
    requires
        batch.wf(),
        batch.phase == Phase::Running,
        outcomes.len() >= batch.plan.len(),
    ensures
        feed(batch, outcomes.skip(batch.cursor as int)).0 == (BatchView {
            cursor: batch.plan.len(),
            phase: Phase::Done,
            ..batch
        }),
        feed(batch, outcomes.skip(batch.cursor as int)).1 == report(outcomes[batch.cursor as int])
            + calls_told(batch.plan, outcomes, batch.cursor + 1, batch.plan.len())
            + seq![complete_marker()],
    decreases batch.plan.len() - batch.cursor,
{
    let at = batch.cursor;
    let total = batch.plan.len();
    let pending = outcomes.skip(at as int);
    assert(pending.first() == outcomes[at as int]);
    assert(pending.drop_first() =~= outcomes.skip(at + 1 as int));
    let (next, step) = batch.advance(outcomes[at as int]);
    if at + 1 < total {
        lemma_feed_to_end(next, outcomes);
        lemma_calls_told_unfold(batch.plan, outcomes, at + 1, total);
        let rest = feed(next, outcomes.skip(at + 1 as int)).1;
        assert(step.messages + rest =~= report(outcomes[at as int]) + calls_told(
            batch.plan,
            outcomes,
            at + 1,
            total,
        ) + seq![complete_marker()]);
    } else {
        lemma_calls_told_none(batch.plan, outcomes, total);
        assert(step.messages + Seq::<Seq<char>>::empty() =~= report(outcomes[at as int])
            + calls_told(batch.plan, outcomes, at + 1, total) + seq![complete_marker()]);
    }
}

/// A batch that awaits a call and is fed the outcomes of that call and of
/// some behind it, but not of all, has then told of each of these calls and
/// announced the next, and awaits that one.
proof fn lemma_feed_in_part(batch: BatchView, outcomes: Seq<OutcomeView>)
    requires
        batch.wf(),
        batch.phase == Phase::Running,
        batch.cursor <= outcomes.len() < batch.plan.len(),
    ensures
        feed(batch, outcomes.skip(batch.cursor as int)).0 == (BatchView {
            cursor: outcomes.len(),
            ..batch
        }),
        seq![batch.plan[batch.cursor as int].announcement()] + feed(
            batch,
            outcomes.skip(batch.cursor as int),
        ).1 == calls_told(batch.plan, outcomes, batch.cursor, outcomes.len())
            + seq![batch.plan[outcomes.len() as int].announcement()],
    decreases outcomes.len() - batch.cursor,
{
    let at = batch.cursor;
    let known = outcomes.len();
    let pending = outcomes.skip(at as int);
    let first = seq![batch.plan[at as int].announcement()];
    if at == known {
        lemma_calls_told_none(batch.plan, outcomes, at);
        assert(first + feed(batch, pending).1 =~= calls_told(batch.plan, outcomes, at, known)
            + first);
    } else {
        assert(pending.first() == outcomes[at as int]);
        assert(pending.drop_first() =~= outcomes.skip(at + 1 as int));
        let (next, step) = batch.advance(outcomes[at as int]);
        lemma_feed_in_part(next, outcomes);
        lemma_calls_told_unfold(batch.plan, outcomes, at, known);
        let rest = feed(next, outcomes.skip(at + 1 as int)).1;
        assert(step.messages == report(outcomes[at as int]) + seq![
            batch.plan[at + 1 as int].announcement(),
        ]);
        assert(first + (step.messages + rest) =~= call_messages(
            batch.plan[at as int],
            outcomes[at as int],
        ) + (seq![batch.plan[at + 1 as int].announcement()] + rest));
    }
}

/// Whatever the plan and however its calls end, a batch that is run to its
/// end tells exactly the transcript: for each call in plan order its
/// announcement and its report, and after all of them, once, the closing
/// message. Then it is done, and outcomes beyond those of its calls make it
/// tell nothing more.
pub proof fn lemma_run_tells_transcript(plan: Seq<InvocationView>, outcomes: Seq<OutcomeView>)
    requires
        outcomes.len() >= plan.len(),
    ensures
        run(plan, outcomes).1 == transcript(plan, outcomes),
        run(plan, outcomes).0 == (BatchView { plan, cursor: plan.len(), phase: Phase::Done }),
        transcript(plan, outcomes).last() == complete_marker(),
        transcript(plan, outcomes).drop_last() == calls_told(plan, outcomes, 0, plan.len()),
{
    let (begun, step) = BatchView::fresh(plan).start();
    assert(transcript(plan, outcomes).drop_last() =~= calls_told(plan, outcomes, 0, plan.len()));
    if plan.len() == 0 {
        lemma_calls_told_none(plan, outcomes, 0);
        assert(run(plan, outcomes).1 =~= transcript(plan, outcomes));
    } else {
        assert(outcomes.skip(0) =~= outcomes);
        lemma_feed_to_end(begun, outcomes);
        lemma_calls_told_unfold(plan, outcomes, 0, plan.len());
        assert(run(plan, outcomes).1 =~= transcript(plan, outcomes));
    }
}

/// A batch that has taken the outcomes of its first calls, but not of all,
/// has told of exactly these calls, each in full and in plan order, and has
/// announced the next call, which it awaits: no call is handed out before
/// the one ahead of it has ended and was told of.
pub proof fn lemma_run_so_far(plan: Seq<InvocationView>, outcomes: Seq<OutcomeView>)
    requires
        outcomes.len() < plan.len(),
    ensures
        run(plan, outcomes).0 == (BatchView {
            plan,
            cursor: outcomes.len(),
            phase: Phase::Running,
        }),
        run(plan, outcomes).1 == calls_told(plan, outcomes, 0, outcomes.len())
            + seq![plan[outcomes.len() as int].announcement()],
{
    let (begun, step) = BatchView::fresh(plan).start();
    assert(outcomes.skip(0) =~= outcomes);
    lemma_feed_in_part(begun, outcomes);
}

/// How a call ends decides what is told of it and nothing else: whether it
/// succeeded, failed or could not be started, the batch moves on to the same
/// next call, or closes, in the same way.
pub proof fn lemma_failure_does_not_end_batch(
    batch: BatchView,
    one: OutcomeView,
    other: OutcomeView,
)
    ensures
        batch.advance(one).0 == batch.advance(other).0,
        batch.advance(one).1.run == batch.advance(other).1.run,
        batch.advance(one).1.messages == report(one) + batch.enter(batch.cursor + 1).1.messages,
{
}

/// Where no program has a flag set, a selective batch makes no call and
/// tells the closing message and nothing else.
pub proof fn lemma_nothing_selected_tells_marker(
    programs: Seq<ProgramView>,
    output_dir: Option<Seq<char>>,
)
    requires
        forall|k: int, i: int|
            0 <= k < programs.len() && 0 <= i < programs[k].selected.len()
                ==> !#[trigger] programs[k].selected[i],
    ensures
        selective_plan(programs, output_dir) == Seq::<InvocationView>::empty(),
        run(selective_plan(programs, output_dir), Seq::empty()).1 == seq![complete_marker()],
    decreases programs.len(),
{
    if programs.len() > 0 {
        let front = programs.drop_last();
        assert forall|k: int, i: int|
            0 <= k < front.len() && 0 <= i < front[k].selected.len()
            implies !#[trigger] front[k].selected[i] by {
            assert(front[k] == programs[k]);
        }
        lemma_nothing_selected_tells_marker(front, output_dir);
        lemma_unselected_program_is_skipped(front, programs.last(), Seq::empty(), output_dir);
        assert(front.push(programs.last()) + Seq::<ProgramView>::empty() =~= programs);
        assert(front + Seq::<ProgramView>::empty() =~= front);
    }
    lemma_run_tells_transcript(Seq::empty(), Seq::empty());
    lemma_empty_plan_tells_marker();
}

/// A program whose flags are all unset is told of by no message of a
/// selective batch: run to its end, the batch tells the same with it and
/// without it, wherever among the programs it stands and however the calls
/// end.
pub proof fn lemma_unselected_program_tells_nothing(
    before: Seq<ProgramView>,
    program: ProgramView,
    after: Seq<ProgramView>,
    output_dir: Option<Seq<char>>,
    outcomes: Seq<OutcomeView>,
)
    requires
        forall|i: int| 0 <= i < program.selected.len() ==> !program.selected[i],
    ensures
        run(selective_plan(before.push(program) + after, output_dir), outcomes) == run(
            selective_plan(before + after, output_dir),
            outcomes,
        ),
{
    lemma_unselected_program_is_skipped(before, program, after, output_dir);
}

/// An empty plan tells the closing message and nothing else.
pub proof fn lemma_empty_plan_tells_marker()
    ensures
        transcript(Seq::empty(), Seq::empty()) == seq![complete_marker()],
{
    lemma_calls_told_none(Seq::empty(), Seq::empty(), 0);
    assert(transcript(Seq::empty(), Seq::empty()) =~= seq![complete_marker()]);
}

/// No message that the batch words itself for a call reads as the closing
/// message: no announcement, no status message, no notice of a failed start.
pub proof fn lemma_marker_is_told_apart(call: InvocationView, code: Option<i32>, reason: Seq<char>)
    ensures
        call.announcement() != complete_marker(),
        crate::report::status_line(code) != complete_marker(),
        crate::report::spawn_failure_line(reason) != complete_marker(),
{
    reveal_strlit("Build complete.");
    reveal_strlit("Running: ");
    reveal_strlit("Build succeeded.");
    reveal_strlit("Build failed with code Some(");
    reveal_strlit("Build failed with code None");
    reveal_strlit("Command failed: ");
    assert(call.announcement()[0] == 'R');
    assert(crate::report::status_line(code)[6] != 'c');
    assert(crate::report::spawn_failure_line(reason)[0] == 'C');
    assert(complete_marker()[0] == 'B');
    assert(complete_marker()[6] == 'c');
}

} // verus!
