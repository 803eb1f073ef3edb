//! One `run:` stage: the command runs in its root, with the network up around it where it asks
//! for that.

use vstd::prelude::*;

use crate::text::shown;

verus! {

/// What a stage does next.
#[derive(Clone, Copy, Debug, PartialEq, Eq, Structural)]
pub enum StageAction {
    /// Bind the pseudo-filesystems and the build context into the root.
    Bind,
    /// Bring the network up.
    NetUp,
    /// Run the command.
    Exec,
    /// Take the network down.
    NetDown,
    /// Take the binds away.
    Unbind,
    /// Nothing: the stage is over.
    Stop,
}

/// Where a stage stands; from the command on it keeps what came of the command.
#[derive(Debug, PartialEq, Eq)]
pub enum StagePhase {
    Bind,
    NetUp,
    Exec,
    NetDown(Result<(), String>),
    Unbind(Result<(), String>),
    Over(Result<(), String>),
}

/// What a [`StagePhase`] holds.
pub enum StagePhaseView {
    Bind,
    NetUp,
    Exec,
    NetDown(Result<(), Seq<char>>),
    Unbind(Result<(), Seq<char>>),
    Over(Result<(), Seq<char>>),
}

impl View for StagePhase {
    type V = StagePhaseView;

    open spec fn view(&self) -> StagePhaseView {
        match self {
            StagePhase::Bind => StagePhaseView::Bind,
            StagePhase::NetUp => StagePhaseView::NetUp,
            StagePhase::Exec => StagePhaseView::Exec,
            StagePhase::NetDown(r) => StagePhaseView::NetDown(shown(*r)),
            StagePhase::Unbind(r) => StagePhaseView::Unbind(shown(*r)),
            StagePhase::Over(r) => StagePhaseView::Over(shown(*r)),
        }
    }
}

/// A stage: whether it makes its own binds, and whether it wants the network.
#[derive(Debug, PartialEq, Eq)]
pub struct RunStage {
    pub binds: bool,
    pub network: bool,
    pub phase: StagePhase,
}

/// What a [`RunStage`] holds.
pub struct StageView {
    pub binds: bool,
    pub network: bool,
    pub phase: StagePhaseView,
}

impl View for RunStage {
    type V = StageView;

    open spec fn view(&self) -> StageView {
        StageView { binds: self.binds, network: self.network, phase: self.phase@ }
    }
}

/// The phase once the binds are there.
pub open spec fn stage_bound(network: bool) -> StagePhaseView {
    if network {
        StagePhaseView::NetUp
    } else {
        StagePhaseView::Exec
    }
}

/// The phase once the network is down again.
pub open spec fn stage_unplugged(binds: bool, r: Result<(), Seq<char>>) -> StagePhaseView {
    if binds {
        StagePhaseView::Unbind(r)
    } else {
        StagePhaseView::Over(r)
    }
}

/// The phase that a stage starts in.
pub open spec fn stage_start(binds: bool, network: bool) -> StagePhaseView {
    if binds {
        StagePhaseView::Bind
    } else {
        stage_bound(network)
    }
}

/// The phase after an action that came out as `outcome`. A failure before the command ends the
/// stage at once; one after it does not count.
pub open spec fn stage_next(s: StageView, outcome: Result<(), Seq<char>>) -> StagePhaseView {
    match s.phase {
        StagePhaseView::Bind => if outcome is Ok {
            stage_bound(s.network)
        } else {
            StagePhaseView::Over(outcome)
        },
        StagePhaseView::NetUp => if outcome is Ok {
            StagePhaseView::Exec
        } else {
            StagePhaseView::Over(outcome)
        },
        StagePhaseView::Exec => if s.network {
            StagePhaseView::NetDown(outcome)
        } else {
            stage_unplugged(s.binds, outcome)
        },
        StagePhaseView::NetDown(r) => stage_unplugged(s.binds, r),
        StagePhaseView::Unbind(r) => StagePhaseView::Over(r),
        StagePhaseView::Over(r) => StagePhaseView::Over(r),
    }
}

/// The action that a phase asks for.
pub open spec fn stage_action(phase: StagePhaseView) -> StageAction {
    match phase {
        StagePhaseView::Bind => StageAction::Bind,
        StagePhaseView::NetUp => StageAction::NetUp,
        StagePhaseView::Exec => StageAction::Exec,
        StagePhaseView::NetDown(_) => StageAction::NetDown,
        StagePhaseView::Unbind(_) => StageAction::Unbind,
        StagePhaseView::Over(_) => StageAction::Stop,
    }
}

fn bound(network: bool) -> (r: StagePhase)
    ensures
        r@ == stage_bound(network),
{
    if network {
        StagePhase::NetUp
    } else {
        StagePhase::Exec
    }
}

fn unplugged(binds: bool, r: Result<(), String>) -> (p: StagePhase)
    ensures
        p@ == stage_unplugged(binds, shown(r)),
{
    if binds {
        StagePhase::Unbind(r)
    } else {
        StagePhase::Over(r)
    }
}

impl RunStage {
    /// A stage that has done nothing yet.
    pub fn start(binds: bool, network: bool) -> (r: RunStage)
        ensures
            r@ == (StageView { binds, network, phase: stage_start(binds, network) }),
    {
        let phase: StagePhase = if binds {
            StagePhase::Bind
        } else {
            bound(network)
        };
        RunStage { binds, network, phase }
    }

    /// What the stage does next.
    pub fn action(&self) -> (r: StageAction)
        ensures
            r == stage_action(self@.phase),
    {
        match &self.phase {
            StagePhase::Bind => StageAction::Bind,
            StagePhase::NetUp => StageAction::NetUp,
            StagePhase::Exec => StageAction::Exec,
            StagePhase::NetDown(_) => StageAction::NetDown,
            StagePhase::Unbind(_) => StageAction::Unbind,
            StagePhase::Over(_) => StageAction::Stop,
        }
    }

    /// Takes in what came of the last action.
    pub fn next(self, outcome: Result<(), String>) -> (r: RunStage)
        ensures
            r@ == (StageView { phase: stage_next(self@, shown(outcome)), ..self@ }),
    {
        let RunStage { binds, network, phase } = self;
        let phase: StagePhase = match phase {
            StagePhase::Bind => if outcome.is_ok() {
                bound(network)
            } else {
                StagePhase::Over(outcome)
            },
            StagePhase::NetUp => if outcome.is_ok() {
                StagePhase::Exec
            } else {
                StagePhase::Over(outcome)
            },
            StagePhase::Exec => if network {
                StagePhase::NetDown(outcome)
            } else {
                unplugged(binds, outcome)
            },
            StagePhase::NetDown(r) => unplugged(binds, r),
            StagePhase::Unbind(r) => StagePhase::Over(r),
            StagePhase::Over(r) => StagePhase::Over(r),
        };
        RunStage { binds, network, phase }
    }
}

/// A stage after a run of outcomes.
pub open spec fn stage_run(
    binds: bool,
    network: bool,
    outcomes: Seq<Result<(), Seq<char>>>,
) -> StageView
    decreases outcomes.len(),
{
    if outcomes.len() == 0 {
        StageView { binds, network, phase: stage_start(binds, network) }
    } else {
        let s = stage_run(binds, network, outcomes.drop_last());
        StageView { phase: stage_next(s, outcomes.last()), ..s }
    }
}

/// What a stage has done after a run of outcomes.
pub open spec fn stage_done(
    binds: bool,
    network: bool,
    outcomes: Seq<Result<(), Seq<char>>>,
) -> Seq<StageAction>
    decreases outcomes.len(),
{
    if outcomes.len() == 0 {
        Seq::empty()
    } else {
        let action = stage_action(stage_run(binds, network, outcomes.drop_last()).phase);
        let before = stage_done(binds, network, outcomes.drop_last());
        if action == StageAction::Stop {
            before
        } else {
            before.push(action)
        }
    }
}

/// What comes before the command.
pub open spec fn stage_entry(binds: bool, network: bool) -> Seq<StageAction> {
    (if binds {
        seq![StageAction::Bind]
    } else {
        seq![]
    }) + (if network {
        seq![StageAction::NetUp]
    } else {
        seq![]
    })
}

/// Everything that a stage whose command ran does, in order.
pub open spec fn stage_whole(binds: bool, network: bool) -> Seq<StageAction> {
    stage_entry(binds, network) + seq![StageAction::Exec] + (if network {
        seq![StageAction::NetDown]
    } else {
        seq![]
    }) + (if binds {
        seq![StageAction::Unbind]
    } else {
        seq![]
    })
}

/// A stage whose command ran, whether or not the command succeeded, is over only when it has done
/// everything once and in order, so that a network it brought up is taken down again and its
/// binds are taken away. A stage succeeds only so, and every stage is over after five outcomes.
pub proof fn law_stage_does_everything_in_order(
    binds: bool,
    network: bool,
    outcomes: Seq<Result<(), Seq<char>>>,
)
    ensures
        ({
            let s = stage_run(binds, network, outcomes);
            let done = stage_done(binds, network, outcomes);
            &&& s.phase is Over && done.contains(StageAction::Exec) ==> done == stage_whole(
                binds,
                network,
            )
            &&& s.phase == StagePhaseView::Over(Ok(())) ==> done == stage_whole(binds, network)
            &&& outcomes.len() >= 5 ==> s.phase is Over
            &&& s.binds == binds && s.network == network
        }),
{
    lemma_stage(binds, network, outcomes);
}

proof fn lemma_stage(binds: bool, network: bool, outcomes: Seq<Result<(), Seq<char>>>)
    ensures
        ({
            let s = stage_run(binds, network, outcomes);
            let done = stage_done(binds, network, outcomes);
            let entry = stage_entry(binds, network);
            let down = if network {
                seq![StageAction::NetDown]
            } else {
                seq![]
            };
            &&& s.binds == binds && s.network == network
            &&& match s.phase {
                StagePhaseView::Bind => binds && outcomes.len() == 0 && done == Seq::<
                    StageAction,
                >::empty(),
                StagePhaseView::NetUp => network && outcomes.len() <= 1 && done == (if binds {
                    seq![StageAction::Bind]
                } else {
                    seq![]
                }),
                StagePhaseView::Exec => outcomes.len() <= 2 && done == entry,
                StagePhaseView::NetDown(_) => network && outcomes.len() <= 3 && done == entry
                    + seq![StageAction::Exec],
                StagePhaseView::Unbind(_) => binds && outcomes.len() <= 4 && done == entry + seq![
                    StageAction::Exec,
                ] + down,
                StagePhaseView::Over(Ok(_)) => done == stage_whole(binds, network),
                StagePhaseView::Over(Err(_)) => done == stage_whole(binds, network)
                    || !done.contains(StageAction::Exec),
            }
        }),
    decreases outcomes.len(),
{
    let entry = stage_entry(binds, network);
    let exec = entry + seq![StageAction::Exec];
    let none = Seq::<StageAction>::empty();
    assert(exec + none =~= exec);
    assert((exec + seq![StageAction::NetDown]) + none =~= exec + seq![StageAction::NetDown]);
    if outcomes.len() == 0 {
        assert(none + none =~= none);
    } else {
        lemma_stage(binds, network, outcomes.drop_last());
        assert(none.push(StageAction::Bind) =~= seq![StageAction::Bind]);
        assert(seq![StageAction::Bind] + none =~= seq![StageAction::Bind]);
        assert(none + seq![StageAction::NetUp] =~= none.push(StageAction::NetUp));
        assert(seq![StageAction::Bind].push(StageAction::NetUp) =~= seq![StageAction::Bind] + seq![
            StageAction::NetUp,
        ]);
        assert(entry.push(StageAction::Exec) =~= exec);
        assert(exec.push(StageAction::NetDown) =~= exec + seq![StageAction::NetDown]);
        assert(exec.push(StageAction::Unbind) =~= exec + none + seq![StageAction::Unbind]);
        assert((exec + seq![StageAction::NetDown]).push(StageAction::Unbind) =~= exec + seq![
            StageAction::NetDown,
        ] + seq![StageAction::Unbind]);
    }
}

/// Once the command has run, the stage keeps what came of it to the end: a stage whose command
/// failed fails with the command's own message, and one whose command succeeded succeeds,
/// whatever came of taking the network down and the binds away.
pub proof fn law_stage_ends_as_its_command_did(
    binds: bool,
    network: bool,
    outcomes: Seq<Result<(), Seq<char>>>,
    i: int,
)
    requires
        0 <= i < outcomes.len(),
        stage_action(stage_run(binds, network, outcomes.take(i)).phase) == StageAction::Exec,
    ensures
        match stage_run(binds, network, outcomes).phase {
            StagePhaseView::NetDown(r) => r == outcomes[i],
            StagePhaseView::Unbind(r) => r == outcomes[i],
            StagePhaseView::Over(r) => r == outcomes[i],
            _ => false,
        },
    decreases outcomes.len(),
{
    let before = outcomes.drop_last();
    if i == outcomes.len() - 1 {
        assert(outcomes.take(i) =~= before);
        lemma_stage(binds, network, before);
    } else {
        assert(before.take(i) =~= outcomes.take(i));
        law_stage_ends_as_its_command_did(binds, network, before, i);
    }
}

/// How many actions come before the command.
pub open spec fn entry_len(binds: bool, network: bool) -> int {
    (if binds {
        1int
    } else {
        0int
    }) + (if network {
        1int
    } else {
        0int
    })
}

/// Where everything before the command succeeds, the command runs next, and the result of the
/// stage is the outcome that answered it: a success exactly where the command succeeded, and the
/// command's own message where it failed.
pub proof fn law_stage_result_is_the_commands(
    binds: bool,
    network: bool,
    outcomes: Seq<Result<(), Seq<char>>>,
)
    requires
        outcomes.len() >= 2 * entry_len(binds, network) + 1,
        forall|j: int| 0 <= j < entry_len(binds, network) ==> #[trigger] outcomes[j] is Ok,
    ensures
        stage_run(binds, network, outcomes).phase == StagePhaseView::Over(
            outcomes[entry_len(binds, network)],
        ),
        stage_done(binds, network, outcomes) == stage_whole(binds, network),
{
    let n = entry_len(binds, network);
    lemma_first_steps(binds, network, outcomes);
    assert(stage_action(stage_run(binds, network, outcomes.take(n)).phase) == StageAction::Exec);
    assert(stage_run(binds, network, outcomes.take(2 * n + 1)).phase is Over);
    lemma_over_stays(binds, network, outcomes, 2 * n + 1);
    law_stage_ends_as_its_command_did(binds, network, outcomes, n);
    lemma_exec_done(binds, network, outcomes, n);
    law_stage_does_everything_in_order(binds, network, outcomes);
}

/// Where something before the command fails, the stage is over with that failure: the command
/// does not run, and neither does anything else.
pub proof fn law_stage_stops_before_its_command(
    binds: bool,
    network: bool,
    outcomes: Seq<Result<(), Seq<char>>>,
    k: int,
)
    requires
        0 <= k < entry_len(binds, network),
        k < outcomes.len(),
        outcomes[k] is Err,
        forall|j: int| 0 <= j < k ==> #[trigger] outcomes[j] is Ok,
    ensures
        stage_run(binds, network, outcomes).phase == StagePhaseView::Over(outcomes[k]),
        !stage_done(binds, network, outcomes).contains(StageAction::Exec),
        stage_done(binds, network, outcomes) == stage_entry(binds, network).take(k + 1),
{
    reveal_with_fuel(stage_run, 3);
    reveal_with_fuel(stage_done, 3);
    let short = outcomes.take(k + 1);
    assert(short.drop_last() =~= outcomes.take(k));
    assert(short.last() == outcomes[k]);
    let entry = stage_entry(binds, network);
    if k == 0 {
        assert(outcomes.take(0) =~= Seq::<Result<(), Seq<char>>>::empty());
    } else {
        assert(outcomes[0] is Ok);
        assert(outcomes.take(1).drop_last() =~= outcomes.take(0));
        assert(outcomes.take(1).last() == outcomes[0]);
        assert(outcomes.take(0) =~= Seq::<Result<(), Seq<char>>>::empty());
    }
    assert(stage_done(binds, network, short) =~= entry.take(k + 1));
    lemma_over_stays(binds, network, outcomes, k + 1);
}

proof fn lemma_first_steps(binds: bool, network: bool, outcomes: Seq<Result<(), Seq<char>>>)
    requires
        outcomes.len() >= 2 * entry_len(binds, network) + 1,
        forall|j: int| 0 <= j < entry_len(binds, network) ==> #[trigger] outcomes[j] is Ok,
    ensures
        stage_run(binds, network, outcomes.take(entry_len(binds, network))).phase is Exec,
        stage_run(binds, network, outcomes.take(2 * entry_len(binds, network) + 1)).phase is Over,
{
    reveal_with_fuel(stage_run, 6);
    let n = entry_len(binds, network);
    assert(outcomes.take(0) =~= Seq::<Result<(), Seq<char>>>::empty());
    assert(stage_run(binds, network, outcomes.take(0)).phase == stage_start(binds, network));
    assert(outcomes.take(1).drop_last() =~= outcomes.take(0));
    assert(outcomes.take(1).last() == outcomes[0]);
    if n >= 1 {
        assert(outcomes[0] is Ok);
        assert(outcomes.take(2).drop_last() =~= outcomes.take(1));
        assert(outcomes.take(2).last() == outcomes[1]);
        assert(outcomes.take(3).drop_last() =~= outcomes.take(2));
    }
    if n >= 2 {
        assert(outcomes[1] is Ok);
        assert(outcomes.take(4).drop_last() =~= outcomes.take(3));
        assert(outcomes.take(5).drop_last() =~= outcomes.take(4));
    }
}

proof fn lemma_over_stays(
    binds: bool,
    network: bool,
    outcomes: Seq<Result<(), Seq<char>>>,
    m: int,
)
    requires
        0 <= m <= outcomes.len(),
        stage_run(binds, network, outcomes.take(m)).phase is Over,
    ensures
        stage_run(binds, network, outcomes) == stage_run(binds, network, outcomes.take(m)),
        stage_done(binds, network, outcomes) == stage_done(binds, network, outcomes.take(m)),
    decreases outcomes.len(),
{
    if m == outcomes.len() {
        assert(outcomes.take(m) =~= outcomes);
    } else {
        let before = outcomes.drop_last();
        assert(before.take(m) =~= outcomes.take(m));
        lemma_over_stays(binds, network, before, m);
    }
}

proof fn lemma_exec_done(
    binds: bool,
    network: bool,
    outcomes: Seq<Result<(), Seq<char>>>,
    i: int,
)
    requires
        0 <= i < outcomes.len(),
        stage_action(stage_run(binds, network, outcomes.take(i)).phase) == StageAction::Exec,
    ensures
        stage_done(binds, network, outcomes).contains(StageAction::Exec),
    decreases outcomes.len(),
{
    let before = outcomes.drop_last();
    let done = stage_done(binds, network, outcomes);
    if i == outcomes.len() - 1 {
        assert(outcomes.take(i) =~= before);
        assert(done.last() == StageAction::Exec);
    } else {
        assert(before.take(i) =~= outcomes.take(i));
        lemma_exec_done(binds, network, before, i);
        let was = stage_done(binds, network, before);
        let k = choose|k: int| 0 <= k < was.len() && was[k] == StageAction::Exec;
        assert(done[k] == StageAction::Exec);
    }
}

/// A stage is shown as it is, and a stage that is over with its result.
pub proof fn law_stages_are_shown_as_they_are(stage: RunStage, e: String)
    ensures
        stage@.binds == stage.binds && stage@.network == stage.network && stage@.phase
            == stage.phase@,
        StagePhase::Over(Ok(()))@ == StagePhaseView::Over(Ok::<(), Seq<char>>(())),
        StagePhase::Over(Err(e))@ == StagePhaseView::Over(Err::<(), Seq<char>>(e@)),
        stage.phase is Over <==> stage@.phase is Over,
        stage.phase is Exec <==> stage@.phase is Exec,
{
}

} // verus!
