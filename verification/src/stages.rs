//! The staged scheduler.
//!
//! A stage is a named, ordered list of systems; the scheduler is an ordered
//! list of stages. The scheduler does not run systems itself: a system is
//! known to it by an identifier, and for each tick it says which systems are
//! to run, in which order. Stages that are tagged as startup stages are part
//! of the first tick only.

use vstd::prelude::*;

verus! {

/// The identifier under which the caller keeps a system.
#[derive(Clone, Copy, Debug, PartialEq, Eq, Structural, Hash)]
pub struct SystemId(pub usize);

/// The stages that [`SystemStages::with_core_stages`] sets up, in the order
/// in which they run.
#[derive(Clone, Copy, Debug, PartialEq, Eq, Structural, Hash)]
pub enum CoreStage {
    /// Runs on the first tick only.
    Startup,
    /// Runs before the update.
    PreUpdate,
    /// The update.
    Update,
    /// Runs after the update.
    PostUpdate,
}

impl CoreStage {
    /// The place of the stage among the core stages.
    pub open spec fn spec_index(self) -> usize {
        match self {
            CoreStage::Startup => 0,
            CoreStage::PreUpdate => 1,
            CoreStage::Update => 2,
            CoreStage::PostUpdate => 3,
        }
    }

    /// The place of the stage among the core stages.
    #[verifier::when_used_as_spec(spec_index)]
    pub fn index(self) -> (i: usize)
        ensures
            i == self.spec_index(),
    {
        match self {
            CoreStage::Startup => 0,
            CoreStage::PreUpdate => 1,
            CoreStage::Update => 2,
            CoreStage::PostUpdate => 3,
        }
    }
}

/// A named, ordered list of systems.
pub struct Stage {
    name: String,
    startup: bool,
    systems: Vec<SystemId>,
}

/// A stage as plain mathematics.
pub struct StageModel {
    pub name: Seq<char>,
    pub startup: bool,
    pub systems: Seq<SystemId>,
}

impl View for Stage {
    type V = StageModel;

    closed spec fn view(&self) -> StageModel {
        StageModel { name: self.name@, startup: self.startup, systems: self.systems@ }
    }
}

impl Stage {
    /// The name of the stage.
    pub fn name(&self) -> (name: &String)
        ensures
            name@ == self@.name,
    {
        &self.name
    }

    /// Whether the stage runs on the first tick only.
    pub fn is_startup(&self) -> (startup: bool)
        ensures
            startup == self@.startup,
    {
        self.startup
    }

    /// The systems of the stage, in the order in which they run.
    pub fn systems(&self) -> (systems: &Vec<SystemId>)
        ensures
            systems@ == self@.systems,
    {
        &self.systems
    }
}

/// A scheduler as plain mathematics: its stages in order, and whether the
/// first tick is over.
pub struct StagesModel {
    pub stages: Seq<StageModel>,
    pub started: bool,
}

impl StagesModel {
    /// Whether stage `k` takes part in the next tick: every stage does in
    /// the first tick, and after it every stage but the startup stages.
    pub open spec fn runs(self, k: int) -> bool {
        !(self.stages[k].startup && self.started)
    }

    /// The systems of the next tick from stage `k` on: the systems of each
    /// stage that takes part, stage after stage, each stage's systems in
    /// their own order.
    pub open spec fn plan_from(self, k: int) -> Seq<SystemId>
        decreases self.stages.len() - k,
    {
        if k < 0 || k >= self.stages.len() {
            Seq::empty()
        } else if self.runs(k) {
            self.stages[k].systems + self.plan_from(k + 1)
        } else {
            self.plan_from(k + 1)
        }
    }

    /// The systems of the next tick, in the order in which they run.
    pub open spec fn plan(self) -> Seq<SystemId> {
        self.plan_from(0)
    }

    /// The scheduler after a tick: the same stages, and the first tick is
    /// over.
    pub open spec fn tick(self) -> StagesModel {
        StagesModel { stages: self.stages, started: true }
    }

    /// The scheduler with one more stage at the end.
    pub open spec fn with_stage(self, name: Seq<char>, startup: bool) -> StagesModel {
        StagesModel {
            stages: self.stages.push(StageModel { name, startup, systems: Seq::empty() }),
            started: self.started,
        }
    }

    /// The scheduler with one more system at the end of stage `k`.
    pub open spec fn with_system(self, k: int, system: SystemId) -> StagesModel {
        StagesModel {
            stages: self.stages.update(
                k,
                StageModel {
                    name: self.stages[k].name,
                    startup: self.stages[k].startup,
                    systems: self.stages[k].systems.push(system),
                },
            ),
            started: self.started,
        }
    }

    /// The first startup stage from stage `k` on, or the number of stages if
    /// there is none.
    pub open spec fn first_startup_from(self, k: int) -> int
        decreases self.stages.len() - k,
    {
        if k < 0 || k >= self.stages.len() {
            self.stages.len() as int
        } else if self.stages[k].startup {
            k
        } else {
            self.first_startup_from(k + 1)
        }
    }

    /// How often `system` occurs among the systems of the stages from stage
    /// `k` on whose startup tag is `startup`.
    pub open spec fn occurrences(self, system: SystemId, startup: bool, k: int) -> nat
        decreases self.stages.len() - k,
    {
        if k < 0 || k >= self.stages.len() {
            0
        } else if self.stages[k].startup == startup {
            count(self.stages[k].systems, system) + self.occurrences(system, startup, k + 1)
        } else {
            self.occurrences(system, startup, k + 1)
        }
    }

    proof fn lemma_plan_counts(self, system: SystemId, k: int)
        requires
            0 <= k,
        ensures
            count(self.plan_from(k), system) == self.occurrences(system, false, k) + if self.started {
                0nat
            } else {
                self.occurrences(system, true, k)
            },
        decreases self.stages.len() - k,
    {
        if k < self.stages.len() {
            self.lemma_plan_counts(system, k + 1);
            if self.runs(k) {
                lemma_count_add(self.stages[k].systems, self.plan_from(k + 1), system);
            }
        }
    }

    proof fn lemma_occurrences_tick(self, system: SystemId, startup: bool, k: int)
        requires
            0 <= k,
        ensures
            self.tick().occurrences(system, startup, k) == self.occurrences(system, startup, k),
        decreases self.stages.len() - k,
    {
        if k < self.stages.len() {
            self.lemma_occurrences_tick(system, startup, k + 1);
        }
    }
}

/// How often `system` occurs in a sequence of systems.
pub open spec fn count(systems: Seq<SystemId>, system: SystemId) -> nat
    decreases systems.len(),
{
    if systems.len() == 0 {
        0
    } else {
        count(systems.drop_last(), system) + if systems.last() == system {
            1nat
        } else {
            0nat
        }
    }
}

proof fn lemma_count_add(a: Seq<SystemId>, b: Seq<SystemId>, system: SystemId)
    ensures
        count(a + b, system) == count(a, system) + count(b, system),
    decreases b.len(),
{
    if b.len() == 0 {
        assert(a + b =~= a);
    } else {
        lemma_count_add(a, b.drop_last(), system);
        assert((a + b).drop_last() =~= a + b.drop_last());
    }
}

/// A system runs in the first tick as often as it stands in any stage, and
/// in every later tick as often as it stands in a stage that is no startup
/// stage: what stands in startup stages only runs once and never again.
pub proof fn lemma_startup_runs_once(m: StagesModel, system: SystemId)
    requires
        !m.started,
    ensures
        m.tick().started,
        m.tick().tick() == m.tick(),
        count(m.plan(), system) == m.occurrences(system, true, 0) + m.occurrences(
            system,
            false,
            0,
        ),
        count(m.tick().plan(), system) == m.occurrences(system, false, 0),
{
    m.lemma_plan_counts(system, 0);
    m.tick().lemma_plan_counts(system, 0);
    m.lemma_occurrences_tick(system, false, 0);
}

/// An ordered collection of stages.
pub struct SystemStages {
    stages: Vec<Stage>,
    has_started: bool,
}

impl View for SystemStages {
    type V = StagesModel;

    closed spec fn view(&self) -> StagesModel {
        StagesModel {
            stages: Seq::new(self.stages@.len(), |k: int| self.stages@[k]@),
            started: self.has_started,
        }
    }
}

impl SystemStages {
    /// A scheduler without stages.
    pub fn new() -> (stages: SystemStages)
        ensures
            stages@.stages == Seq::<StageModel>::empty(),
            !stages@.started,
    {
        let stages = SystemStages { stages: Vec::new(), has_started: false };
        proof {
            assert(stages@.stages =~= Seq::<StageModel>::empty());
        }
        stages
    }

    /// A scheduler with the core stages, in their order: a startup stage,
    /// then the stages before, of and after the update.
    pub fn with_core_stages() -> (stages: SystemStages)
        ensures
            stages@.stages.len() == 4,
            !stages@.started,
            stages@.stages[0] == (StageModel {
                name: "Startup"@,
                startup: true,
                systems: Seq::empty(),
            }),
            stages@.stages[1] == (StageModel {
                name: "PreUpdate"@,
                startup: false,
                systems: Seq::empty(),
            }),
            stages@.stages[2] == (StageModel {
                name: "Update"@,
                startup: false,
                systems: Seq::empty(),
            }),
            stages@.stages[3] == (StageModel {
                name: "PostUpdate"@,
                startup: false,
                systems: Seq::empty(),
            }),
            stages@.first_startup_from(0) == 0,
    {
        let mut stages = SystemStages::new();
        stages.add_stage("Startup".to_owned(), true);
        stages.add_stage("PreUpdate".to_owned(), false);
        stages.add_stage("Update".to_owned(), false);
        stages.add_stage("PostUpdate".to_owned(), false);
        stages
    }

    /// The number of stages.
    pub fn len(&self) -> (n: usize)
        ensures
            n == self@.stages.len(),
    {
        self.stages.len()
    }

    /// Whether the first tick is over.
    pub fn has_started(&self) -> (started: bool)
        ensures
            started == self@.started,
    {
        self.has_started
    }

    /// Stage `k`.
    pub fn stage(&self, k: usize) -> (stage: &Stage)
        requires
            k < self@.stages.len(),
        ensures
            stage@ == self@.stages[k as int],
    {
        &self.stages[k]
    }

    /// Appends an empty stage and returns its place.
    pub fn add_stage(&mut self, name: String, startup: bool) -> (k: usize)
        ensures
            k == old(self)@.stages.len(),
            final(self)@ == old(self)@.with_stage(name@, startup),
    {
        let k = self.stages.len();
        self.stages.push(Stage { name, startup, systems: Vec::new() });
        proof {
            assert(self@.stages =~= old(self)@.with_stage(name@, startup).stages);
        }
        k
    }

    /// Appends a system to stage `k`.
    pub fn add_system_to_stage(&mut self, k: usize, system: SystemId)
        requires
            k < old(self)@.stages.len(),
        ensures
            final(self)@ == old(self)@.with_system(k as int, system),
    {
        self.stages[k].systems.push(system);
        proof {
            assert(self@.stages =~= old(self)@.with_system(k as int, system).stages);
        }
    }

    /// The place of the first startup stage, if there is one.
    pub fn startup_stage(&self) -> (r: Option<usize>)
        ensures
            match r {
                Some(k) => k == self@.first_startup_from(0) && k < self@.stages.len(),
                None => self@.first_startup_from(0) == self@.stages.len(),
            },
    {
        let mut k: usize = 0;
        while k < self.stages.len()
            invariant
                k <= self.stages@.len(),
                self@.first_startup_from(0) == self@.first_startup_from(k as int),
            decreases self.stages@.len() - k,
        {
            if self.stages[k].startup {
                return Some(k);
            }
            k += 1;
        }
        None
    }

    /// Appends a system to the first startup stage.
    pub fn add_startup_system(&mut self, system: SystemId)
        requires
            old(self)@.first_startup_from(0) < old(self)@.stages.len(),
        ensures
            final(self)@ == old(self)@.with_system(old(self)@.first_startup_from(0), system),
    {
        match self.startup_stage() {
            Some(k) => {
                self.add_system_to_stage(k, system);
            },
            None => {},
        }
    }

    /// Begins a tick: says which systems are to run in it, in which order,
    /// and notes that the first tick is over.
    pub fn run(&mut self) -> (plan: Vec<SystemId>)
        ensures
            plan@ == old(self)@.plan(),
            final(self)@ == old(self)@.tick(),
    {
        let mut plan: Vec<SystemId> = Vec::new();
        let mut k: usize = self.stages.len();
        let ghost model = self@;
        while k > 0
            invariant
                k <= self.stages@.len(),
                model == self@,
                *self == *old(self),
                plan@ == model.plan_from(k as int),
            decreases k,
        {
            k -= 1;
            let stage = &self.stages[k];
            if !(stage.startup && self.has_started) {
                let mut head: Vec<SystemId> = Vec::new();
                let mut j: usize = 0;
                while j < stage.systems.len()
                    invariant
                        j <= stage.systems@.len(),
                        head@ == stage.systems@.take(j as int),
                    decreases stage.systems@.len() - j,
                {
                    head.push(stage.systems[j]);
                    proof {
                        assert(stage.systems@.take(j + 1) =~= stage.systems@.take(j as int).push(
                            stage.systems@[j as int],
                        ));
                    }
                    j += 1;
                }
                proof {
                    assert(stage.systems@.take(j as int) =~= stage.systems@);
                }
                head.append(&mut plan);
                plan = head;
            }
        }
        self.has_started = true;
        proof {
            assert(self@.stages =~= old(self)@.stages);
        }
        plan
    }
}

} // verus!
