//! Disposition planning: what happens to every duplicate.
//!
//! Detection and mutation never interleave: once the groups stand, this
//! stage lays out one step per duplicate — never one for a canonical
//! file — in group order then duplicate order. The surrounding process
//! executes the steps (printing, renaming, or removing) and hands back
//! each step's error text, if any; those are folded into per-file
//! failures here. A reporting run plans no relocation and no removal:
//! its steps are emission records only.

use vstd::prelude::*;
use crate::config::DuplicateAction;
use crate::record::{DuplicateGroup, Failure, FailureModel, GroupModel, RecordModel};

verus! {

/// What one planned step instructs.
#[derive(Debug)]
pub enum StepOp {
    /// Emit the step's record to the report sink; touch nothing.
    Emit,
    /// Relocate the duplicate into the named quarantine directory,
    /// keeping its base filename; a name collision there fails this one
    /// step rather than overwriting silently.
    Relocate(String),
    /// Permanently remove the duplicate.
    Remove,
}

/// Mathematical image of a `StepOp`.
#[verifier::ext_equal]
pub enum OpModel {
    Emit,
    Relocate(Seq<char>),
    Remove,
}

impl View for StepOp {
    type V = OpModel;

    open spec fn view(&self) -> OpModel {
        match self {
            StepOp::Emit => OpModel::Emit,
            StepOp::Relocate(q) => OpModel::Relocate(q@),
            StepOp::Remove => OpModel::Remove,
        }
    }
}

impl DeepView for StepOp {
    type V = OpModel;

    open spec fn deep_view(&self) -> OpModel {
        self.view()
    }
}

/// One planned disposition: the duplicate concerned, the canonical file
/// kept in its place, the duplicate's byte size, and the instruction.
#[derive(Debug)]
pub struct DispositionStep {
    pub duplicate_path: String,
    pub canonical_path: String,
    pub size: u64,
    pub op: StepOp,
}

/// Mathematical image of a `DispositionStep`.
#[verifier::ext_equal]
pub struct StepModel {
    pub duplicate_path: Seq<char>,
    pub canonical_path: Seq<char>,
    pub size: u64,
    pub op: OpModel,
}

impl View for DispositionStep {
    type V = StepModel;

    open spec fn view(&self) -> StepModel {
        StepModel {
            duplicate_path: self.duplicate_path@,
            canonical_path: self.canonical_path@,
            size: self.size,
            op: self.op@,
        }
    }
}

impl DeepView for DispositionStep {
    type V = StepModel;

    open spec fn deep_view(&self) -> StepModel {
        self.view()
    }
}

/// The instruction every step of a run carries.
pub open spec fn op_model(action: DuplicateAction, quarantine: Option<Seq<char>>) -> OpModel {
    match action {
        DuplicateAction::Report => OpModel::Emit,
        DuplicateAction::Move => OpModel::Relocate(
            match quarantine {
                Some(q) => q,
                None => Seq::empty(),
            },
        ),
        DuplicateAction::Delete => OpModel::Remove,
    }
}

/// The step planned for duplicate `dup` of a group led by `canonical`.
pub open spec fn step_model(
    action: DuplicateAction,
    quarantine: Option<Seq<char>>,
    canonical: Seq<char>,
    dup: RecordModel,
) -> StepModel {
    StepModel {
        duplicate_path: dup.path,
        canonical_path: canonical,
        size: dup.size,
        op: op_model(action, quarantine),
    }
}

/// The steps planned for one group: one per duplicate, in order, none
/// for the canonical file.
pub open spec fn group_steps_model(
    action: DuplicateAction,
    quarantine: Option<Seq<char>>,
    g: GroupModel,
) -> Seq<StepModel> {
    g.duplicates.map_values(|d: RecordModel| step_model(action, quarantine, g.canonical.path, d))
}

/// The whole plan: group order, duplicate order within each group.
pub open spec fn plan_model(
    action: DuplicateAction,
    quarantine: Option<Seq<char>>,
    groups: Seq<GroupModel>,
) -> Seq<StepModel>
    decreases groups.len(),
{
    if groups.len() == 0 {
        Seq::empty()
    } else {
        plan_model(action, quarantine, groups.drop_last()) + group_steps_model(
            action,
            quarantine,
            groups.last(),
        )
    }
}

/// A reporting run's plan instructs emission only: no step of it
/// relocates or removes anything, so executing it leaves the filesystem
/// unchanged.
pub proof fn lemma_report_plan_emits(quarantine: Option<Seq<char>>, groups: Seq<GroupModel>)
    ensures
        forall|t: int|
            0 <= t < plan_model(DuplicateAction::Report, quarantine, groups).len()
                ==> (#[trigger] plan_model(DuplicateAction::Report, quarantine, groups)[t]).op
                    is Emit,
    decreases groups.len(),
{
    if groups.len() != 0 {
        lemma_report_plan_emits(quarantine, groups.drop_last());
    }
}

/// Lays out one step per duplicate across all groups, in group order
/// then duplicate order; the canonical member of a group never gets a
/// step. The plan mutates nothing itself: it is handed to the
/// surrounding process once detection has fully completed.
pub fn plan_dispositions(
    action: DuplicateAction,
    quarantine_dir: &Option<String>,
    groups: &Vec<DuplicateGroup>,
) -> (steps: Vec<DispositionStep>)
    requires
        action is Move ==> quarantine_dir is Some,
    ensures
        steps.deep_view() == plan_model(action, quarantine_dir.deep_view(), groups.deep_view()),
        action is Report ==> forall|t: int|
            0 <= t < steps.deep_view().len() ==> (#[trigger] steps.deep_view()[t]).op is Emit,
{
    let ghost gv = groups.deep_view();
    let ghost qv = quarantine_dir.deep_view();
    let mut steps: Vec<DispositionStep> = Vec::new();
    let mut i: usize = 0;
    while i < groups.len()
        invariant
            gv == groups.deep_view(),
            qv == quarantine_dir.deep_view(),
            action is Move ==> quarantine_dir is Some,
            i <= gv.len(),
            steps@.len() == plan_model(action, qv, gv.take(i as int)).len(),
            forall|t: int|
                0 <= t < steps@.len()
                    ==> #[trigger] steps@[t]@ == plan_model(action, qv, gv.take(i as int))[t],
        decreases gv.len() - i,
    {
        let g = &groups[i];
        let ghost base = steps@;
        proof {
            assert(g@ == gv[i as int]);
            assert(gv.take(i as int + 1).drop_last() =~= gv.take(i as int));
            assert(gv.take(i as int + 1).last() == gv[i as int]);
        }
        let mut j: usize = 0;
        while j < g.duplicates.len()
            invariant
                gv == groups.deep_view(),
                qv == quarantine_dir.deep_view(),
                action is Move ==> quarantine_dir is Some,
                0 <= i < gv.len(),
                g@ == gv[i as int],
                j <= gv[i as int].duplicates.len(),
                steps@.len() == base.len() + j,
                forall|t: int| 0 <= t < base.len() ==> #[trigger] steps@[t] == base[t],
                forall|t: int|
                    base.len() <= t < steps@.len()
                        ==> #[trigger] steps@[t]@ == group_steps_model(action, qv, gv[i as int])[t
                        - base.len()],
            decreases gv[i as int].duplicates.len() - j,
        {
            let d = &g.duplicates[j];
            proof {
                assert(d@ == gv[i as int].duplicates[j as int]);
            }
            let op = match action {
                DuplicateAction::Report => StepOp::Emit,
                DuplicateAction::Move => {
                    match quarantine_dir {
                        Some(q) => StepOp::Relocate(q.clone()),
                        None => {
                            proof {
                                assert(false);
                            }
                            StepOp::Emit
                        },
                    }
                },
                DuplicateAction::Delete => StepOp::Remove,
            };
            let step = DispositionStep {
                duplicate_path: d.path.clone(),
                canonical_path: g.canonical.path.clone(),
                size: d.size,
                op,
            };
            proof {
                assert(step@ =~= step_model(
                    action,
                    qv,
                    gv[i as int].canonical.path,
                    gv[i as int].duplicates[j as int],
                ));
            }
            steps.push(step);
            j += 1;
        }
        proof {
            assert(steps@.len() == base.len() + group_steps_model(action, qv, gv[i as int]).len());
            assert forall|t: int| 0 <= t < steps@.len()
                implies #[trigger] steps@[t]@ == plan_model(action, qv, gv.take(i as int + 1))[t]
                by {
                if t < base.len() {
                    assert(steps@[t] == base[t]);
                }
            }
        }
        i += 1;
    }
    proof {
        assert(gv.take(gv.len() as int) =~= gv);
        if action is Report {
            lemma_report_plan_emits(qv, gv);
        }
        assert(steps.deep_view() =~= plan_model(action, qv, gv));
    }
    steps
}

/// The failures among executed steps: one per step whose executor
/// reported an error, bearing the duplicate's path and the error text.
pub open spec fn step_failures_model(
    steps: Seq<StepModel>,
    results: Seq<Option<Seq<char>>>,
) -> Seq<FailureModel>
    decreases steps.len(),
{
    if steps.len() == 0 || results.len() == 0 {
        Seq::empty()
    } else {
        step_failures_model(steps.drop_last(), results.drop_last()) + match results.last() {
            Some(e) => seq![
                FailureModel { path: steps.last().duplicate_path, message: e },
            ],
            None => Seq::empty(),
        }
    }
}

/// Folds the executors' per-step error texts (`None` for a step that
/// succeeded) into per-file failures, in step order. A failed step never
/// halts a run: the remaining steps were still attempted.
pub fn collect_step_failures(steps: &Vec<DispositionStep>, results: &Vec<Option<String>>) -> (fs:
    Vec<Failure>)
    requires
        steps@.len() == results@.len(),
    ensures
        fs.deep_view() == step_failures_model(steps.deep_view(), results.deep_view()),
{
    let ghost sv = steps.deep_view();
    let ghost rv = results.deep_view();
    let mut fs: Vec<Failure> = Vec::new();
    let mut i: usize = 0;
    while i < steps.len()
        invariant
            sv == steps.deep_view(),
            rv == results.deep_view(),
            sv.len() == rv.len(),
            i <= sv.len(),
            fs@.len() == step_failures_model(sv.take(i as int), rv.take(i as int)).len(),
            forall|t: int|
                0 <= t < fs@.len()
                    ==> #[trigger] fs@[t]@ == step_failures_model(
                    sv.take(i as int),
                    rv.take(i as int),
                )[t],
        decreases sv.len() - i,
    {
        proof {
            assert(sv.take(i as int + 1).drop_last() =~= sv.take(i as int));
            assert(rv.take(i as int + 1).drop_last() =~= rv.take(i as int));
            assert(sv.take(i as int + 1).last() == sv[i as int]);
            assert(rv.take(i as int + 1).last() == rv[i as int]);
        }
        match &results[i] {
            Some(e) => {
                let f = Failure { path: steps[i].duplicate_path.clone(), message: e.clone() };
                proof {
                    assert(f@ =~= (FailureModel { path: sv[i as int].duplicate_path, message: rv[i as int]->Some_0 }));
                }
                fs.push(f);
            },
            None => {},
        }
        i += 1;
    }
    proof {
        assert(sv.take(sv.len() as int) =~= sv);
        assert(rv.take(rv.len() as int) =~= rv);
        assert(fs.deep_view() =~= step_failures_model(sv, rv));
    }
    fs
}

} // verus!
