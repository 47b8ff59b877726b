//! The executor's decisions: what a built-in run alone does with its output
//! under a redirection set, and how the stages of a pipeline are wired.
//!
//! The functions here plan; they open no file and start no process. Their
//! results say what is to be done, in order, and the caller does it.

use crate::builtins::{echo_message, echo_text, type_target, Message, Note};
use crate::dispatch::{is_builtin_name, stage_views, Action, CommandAction, Stage, StageModel};
use crate::pathcache::PathCache;
use crate::redirect::{copy_redirection, slots_of, Fd, Redirection, Slots};
use crate::text::{copy_string, copy_strings, spells, to_chars, views};
use vstd::prelude::*;
use vstd::string::*;

verus! {

/// One thing that a built-in, run by the shell itself, does with its output.
#[derive(Clone, Debug, PartialEq, Eq)]
pub enum Effect {
    /// Write `text` to the shell's own standard output or standard error.
    Print { to: Fd, text: String },
    /// Open `path`, creating it, and write nothing: emptied unless `append`.
    Touch { path: String, append: bool },
    /// Open `path`, creating it, emptied unless `append`, and write `text`
    /// at its end. Nothing is written if the file cannot be opened.
    Write { path: String, append: bool, text: String },
}

/// The model of an `Effect`.
pub enum Deed {
    Print { to: Fd, text: Seq<char> },
    Touch { path: Seq<char>, append: bool },
    Write { path: Seq<char>, append: bool, text: Seq<char> },
}

impl View for Effect {
    type V = Deed;

    open spec fn view(&self) -> Deed {
        match *self {
            Effect::Print { to, text } => Deed::Print { to, text: text@ },
            Effect::Touch { path, append } => Deed::Touch { path: path@, append },
            Effect::Write { path, append, text } => Deed::Write { path: path@, append, text: text@ },
        }
    }
}

/// The models of a list of effects.
pub open spec fn deeds(effects: Seq<Effect>) -> Seq<Deed> {
    Seq::new(effects.len(), |i: int| effects[i]@)
}

/// Whether the standard output of this command goes to the target of a
/// redirection when it is run alone: that of `echo` and `pwd` does. The other
/// built-ins write where the shell writes.
pub open spec fn obeys_redirection(action: Action) -> bool {
    action is Echo || action is Pwd
}

/// Whether the standard output of `action`, run alone, follows a
/// redirection.
pub fn follows_redirection(action: &CommandAction) -> (b: bool)
    ensures
        b == obeys_redirection(action@),
{
    match action {
        CommandAction::Echo(_) => true,
        CommandAction::Pwd => true,
        _ => false,
    }
}

/// What a built-in that is run alone does, given what it has to say. The
/// target of standard error, if there is one, is created first and nothing
/// is written to it. Then the text goes to the target of standard output if
/// the command follows redirections, the text is for standard output and
/// there is such a target; otherwise it goes to the stream it is for.
pub open spec fn delivered(note: Option<Note>, follows: bool, slots: Slots) -> Seq<Deed> {
    let touched = match slots.err {
        Some(target) => seq![Deed::Touch { path: target.path, append: target.append }],
        None => Seq::empty(),
    };
    match note {
        None => touched,
        Some(note) => {
            if follows && note.to == Fd::Stdout && slots.out is Some {
                touched.push(
                    Deed::Write {
                        path: slots.out->0.path,
                        append: slots.out->0.append,
                        text: note.text,
                    },
                )
            } else {
                touched.push(Deed::Print { to: note.to, text: note.text })
            }
        },
    }
}

/// Plans what a built-in that is run alone does with `message` under
/// `redirection`. `follows` says whether its standard output follows
/// redirections.
pub fn deliver(message: Option<Message>, follows: bool, redirection: &Option<Redirection>) -> (effects:
    Vec<Effect>)
    ensures
        deeds(effects@) == delivered(
            match message {
                Some(m) => Some(m@),
                None => None,
            },
            follows,
            slots_of(*redirection),
        ),
{
    let mut effects: Vec<Effect> = Vec::new();
    let mut target: Option<(String, bool)> = None;
    match redirection {
        Some(r) => {
            match &r.stderr {
                Some(t) => {
                    effects.push(Effect::Touch { path: copy_string(&t.path), append: t.append });
                },
                None => {},
            }
            match &r.stdout {
                Some(t) => {
                    target = Some((copy_string(&t.path), t.append));
                },
                None => {},
            }
        },
        None => {},
    }
    match message {
        Some(m) => {
            let Message { to, text } = m;
            match target {
                Some((path, append)) => {
                    if follows && to == Fd::Stdout {
                        effects.push(Effect::Write { path, append, text });
                    } else {
                        effects.push(Effect::Print { to, text });
                    }
                },
                None => {
                    effects.push(Effect::Print { to, text });
                },
            }
        },
        None => {},
    }
    assert(deeds(effects@) =~= delivered(
        match message {
            Some(m) => Some(m@),
            None => None,
        },
        follows,
        slots_of(*redirection),
    ));
    effects
}

/// What a stage does inside a pipeline, in a process of its own.
#[derive(Clone, Debug, PartialEq, Eq)]
pub enum Job {
    /// `echo`: write the text to standard output.
    Echo(String),
    /// `type`: read standard input to its end, then say what kind of
    /// command the name is, if a name was given.
    Type(Option<String>),
    /// `pwd`: read standard input to its end, then write the working
    /// directory.
    Pwd,
    /// `exit`, `cd`, `history`: nothing; what they change would be lost with
    /// the process.
    Idle,
    /// Become the program at `path`, with `name` and `args` as its
    /// arguments.
    Exec { name: String, path: String, args: Vec<String> },
    /// The command is not known: say so and end with the status for that.
    NotFound(String),
}

/// The model of a `Job`.
pub enum Task {
    Echo(Seq<char>),
    Type(Option<Seq<char>>),
    Pwd,
    Idle,
    Exec { name: Seq<char>, path: Seq<char>, args: Seq<Seq<char>> },
    NotFound(Seq<char>),
}

impl View for Job {
    type V = Task;

    open spec fn view(&self) -> Task {
        match *self {
            Job::Echo(text) => Task::Echo(text@),
            Job::Type(name) => Task::Type(
                match name {
                    Some(n) => Some(n@),
                    None => None,
                },
            ),
            Job::Pwd => Task::Pwd,
            Job::Idle => Task::Idle,
            Job::Exec { name, path, args } => Task::Exec {
                name: name@,
                path: path@,
                args: views(args@),
            },
            Job::NotFound(name) => Task::NotFound(name@),
        }
    }
}

/// What a stage does inside a pipeline. A built-in name is never looked up
/// in the cache.
pub open spec fn task_of(stage: StageModel, cache: Map<Seq<char>, Seq<char>>) -> Task {
    if stage.name == "echo"@ {
        Task::Echo(echo_text(stage.args))
    } else if stage.name == "type"@ {
        Task::Type(
            if stage.args.len() > 0 {
                Some(stage.args[0])
            } else {
                None
            },
        )
    } else if stage.name == "pwd"@ {
        Task::Pwd
    } else if is_builtin_name(stage.name) {
        Task::Idle
    } else if cache.contains_key(stage.name) {
        Task::Exec { name: stage.name, path: cache[stage.name], args: stage.args }
    } else {
        Task::NotFound(stage.name)
    }
}

/// Built-in shadowing in a pipeline: a stage with a built-in name never
/// becomes a program, whatever the path cache holds.
pub proof fn lemma_builtin_stage_runs_inside(stage: StageModel, cache: Map<Seq<char>, Seq<char>>)
    requires
        is_builtin_name(stage.name),
    ensures
        !(task_of(stage, cache) is Exec),
        !(task_of(stage, cache) is NotFound),
{
}

/// Whether a task reads its standard input to the end before it writes:
/// `type` and `pwd` do, so that the stage before them can finish writing;
/// `echo` does not.
pub open spec fn drains_input(task: Task) -> bool {
    task is Type || task is Pwd
}

/// Whether `job` reads its standard input to the end before it writes.
pub fn drains_stdin(job: &Job) -> (b: bool)
    ensures
        b == drains_input(job@),
{
    match job {
        Job::Type(_) => true,
        Job::Pwd => true,
        _ => false,
    }
}

/// Chooses what a stage does inside a pipeline.
pub fn plan_job(stage: &Stage, cache: &PathCache) -> (job: Job)
    ensures
        job@ == task_of(stage@, cache@),
{
    let name = to_chars(stage.name.as_str());
    if spells(&name, "echo") {
        Job::Echo(echo_message(&stage.args).text)
    } else if spells(&name, "type") {
        Job::Type(type_target(&stage.args))
    } else if spells(&name, "pwd") {
        Job::Pwd
    } else if spells(&name, "exit") || spells(&name, "cd") || spells(&name, "history") {
        Job::Idle
    } else {
        match cache.resolve(stage.name.as_str()) {
            Some(path) => Job::Exec {
                name: copy_string(&stage.name),
                path,
                args: copy_strings(&stage.args),
            },
            None => Job::NotFound(copy_string(&stage.name)),
        }
    }
}

/// One process of a pipeline. Pipes are numbered from zero; pipe `k` joins
/// stage `k` to stage `k + 1`. The process first puts the pipes in place of
/// its standard input and output, then closes every pipe descriptor it
/// inherited, then applies its own redirections, which thereby win over the
/// pipes, and then does its job.
#[derive(Clone, Debug, PartialEq, Eq)]
pub struct Child {
    /// The pipe whose read end becomes standard input.
    pub input: Option<usize>,
    /// The pipe whose write end becomes standard output.
    pub output: Option<usize>,
    pub redirection: Option<Redirection>,
    pub job: Job,
}

/// The model of a `Child`.
pub struct ChildModel {
    pub input: Option<usize>,
    pub output: Option<usize>,
    pub slots: Slots,
    pub task: Task,
}

impl View for Child {
    type V = ChildModel;

    open spec fn view(&self) -> ChildModel {
        ChildModel {
            input: self.input,
            output: self.output,
            slots: slots_of(self.redirection),
            task: self.job@,
        }
    }
}

/// The models of a list of children.
pub open spec fn child_views(children: Seq<Child>) -> Seq<ChildModel> {
    Seq::new(children.len(), |i: int| children[i]@)
}

/// The process of stage `i`: it reads from the pipe before it, unless it is
/// the first, and writes to the pipe after it, unless it is the last.
pub open spec fn child_of(
    stages: Seq<StageModel>,
    i: int,
    cache: Map<Seq<char>, Seq<char>>,
) -> ChildModel {
    ChildModel {
        input: if i > 0 {
            Some((i - 1) as usize)
        } else {
            None
        },
        output: if i < stages.len() - 1 {
            Some(i as usize)
        } else {
            None
        },
        slots: stages[i].slots,
        task: task_of(stages[i], cache),
    }
}

/// The processes of a pipeline, one per stage, in order.
pub open spec fn children_of(
    stages: Seq<StageModel>,
    cache: Map<Seq<char>, Seq<char>>,
) -> Seq<ChildModel> {
    Seq::new(stages.len(), |i: int| child_of(stages, i, cache))
}

/// The number of pipes between `n` stages.
pub open spec fn pipes_for(n: nat) -> nat {
    if n == 0 {
        0
    } else {
        (n - 1) as nat
    }
}

/// One step of the shell itself while it runs a pipeline.
#[derive(Clone, Copy, Debug, PartialEq, Eq, Structural)]
pub enum ParentStep {
    /// Create pipe `k`.
    OpenPipe(usize),
    /// Start the process of stage `i`.
    Fork(usize),
    /// Close the shell's read end of pipe `k`.
    CloseRead(usize),
    /// Close the shell's write end of pipe `k`.
    CloseWrite(usize),
    /// Wait for the process of stage `i` to end.
    Wait(usize),
}

/// What the shell does for a pipeline of `n` stages: it creates the pipes,
/// starts the processes from left to right, closes both ends of every pipe,
/// and waits for the processes in the order in which it started them.
pub open spec fn script(n: nat) -> Seq<ParentStep> {
    opens(pipes_for(n)) + forks(n) + closes(pipes_for(n)) + waits(n)
}

/// The creation of pipes `0..p`.
pub open spec fn opens(p: nat) -> Seq<ParentStep> {
    Seq::new(p, |k: int| ParentStep::OpenPipe(k as usize))
}

/// The start of processes `0..n`.
pub open spec fn forks(n: nat) -> Seq<ParentStep> {
    Seq::new(n, |i: int| ParentStep::Fork(i as usize))
}

/// The closing of both ends of pipes `0..p`, pipe by pipe.
pub open spec fn closes(p: nat) -> Seq<ParentStep> {
    Seq::new(
        2 * p,
        |j: int|
            if j % 2 == 0 {
                ParentStep::CloseRead((j / 2) as usize)
            } else {
                ParentStep::CloseWrite((j / 2) as usize)
            },
    )
}

/// The waits for processes `0..n`.
pub open spec fn waits(n: nat) -> Seq<ParentStep> {
    Seq::new(n, |i: int| ParentStep::Wait(i as usize))
}

/// The plan of a pipeline.
#[derive(Clone, Debug, PartialEq, Eq)]
pub struct Plan {
    /// The number of pipes.
    pub pipes: usize,
    /// The processes, one per stage.
    pub children: Vec<Child>,
    /// What the shell itself does, in order.
    pub steps: Vec<ParentStep>,
}

/// The steps of the shell for a pipeline of `n` stages.
pub fn parent_script(n: usize) -> (steps: Vec<ParentStep>)
    ensures
        steps@ == script(n as nat),
{
    let p: usize = if n == 0 {
        0
    } else {
        n - 1
    };
    let mut steps: Vec<ParentStep> = Vec::new();
    let mut k: usize = 0;
    while k < p
        invariant
            k <= p,
            steps@ == opens(p as nat).take(k as int),
        decreases p - k,
    {
        steps.push(ParentStep::OpenPipe(k));
        assert(steps@ =~= opens(p as nat).take(k + 1));
        k += 1;
    }
    assert(steps@ =~= opens(p as nat));
    let mut i: usize = 0;
    while i < n
        invariant
            i <= n,
            steps@ == opens(p as nat) + forks(n as nat).take(i as int),
        decreases n - i,
    {
        steps.push(ParentStep::Fork(i));
        assert(steps@ =~= opens(p as nat) + forks(n as nat).take(i + 1));
        i += 1;
    }
    assert(steps@ =~= opens(p as nat) + forks(n as nat));
    let mut k: usize = 0;
    while k < p
        invariant
            k <= p,
            steps@ == opens(p as nat) + forks(n as nat) + closes(p as nat).take(2 * k),
        decreases p - k,
    {
        steps.push(ParentStep::CloseRead(k));
        steps.push(ParentStep::CloseWrite(k));
        assert(steps@ =~= opens(p as nat) + forks(n as nat) + closes(p as nat).take(2 * (k + 1)));
        k += 1;
    }
    assert(steps@ =~= opens(p as nat) + forks(n as nat) + closes(p as nat));
    let mut i: usize = 0;
    while i < n
        invariant
            i <= n,
            steps@ == opens(p as nat) + forks(n as nat) + closes(p as nat) + waits(n as nat).take(
                i as int,
            ),
        decreases n - i,
    {
        steps.push(ParentStep::Wait(i));
        assert(steps@ =~= opens(p as nat) + forks(n as nat) + closes(p as nat) + waits(
            n as nat,
        ).take(i + 1));
        i += 1;
    }
    assert(steps@ =~= script(n as nat));
    steps
}

/// Plans a pipeline: one process per stage, a pipe between each two
/// neighbours, and the steps of the shell around them.
pub fn plan_pipeline(stages: &Vec<Stage>, cache: &PathCache) -> (plan: Plan)
    ensures
        plan.pipes == pipes_for(stages.len() as nat),
        plan.children.len() == stages.len(),
        child_views(plan.children@) == children_of(stage_views(stages@), cache@),
        plan.steps@ == script(stages.len() as nat),
{
    let n: usize = stages.len();
    let mut children: Vec<Child> = Vec::new();
    let mut i: usize = 0;
    while i < n
        invariant
            i <= n,
            n == stages.len(),
            children.len() == i,
            child_views(children@) == children_of(stage_views(stages@), cache@).take(i as int),
        decreases n - i,
    {
        let child = Child {
            input: if i > 0 {
                Some(i - 1)
            } else {
                None
            },
            output: if i < n - 1 {
                Some(i)
            } else {
                None
            },
            redirection: copy_redirection(&stages[i].redirection),
            job: plan_job(&stages[i], cache),
        };
        assert(child@ == child_of(stage_views(stages@), i as int, cache@));
        assert(child_views(children@.push(child)) =~= children_of(
            stage_views(stages@),
            cache@,
        ).take(i + 1));
        children.push(child);
        i += 1;
    }
    assert(children_of(stage_views(stages@), cache@).take(n as int) =~= children_of(
        stage_views(stages@),
        cache@,
    ));
    let pipes: usize = if n == 0 {
        0
    } else {
        n - 1
    };
    Plan { pipes, children, steps: parent_script(n) }
}

/// One end of a pipe.
pub struct End {
    pub pipe: usize,
    pub write: bool,
}

/// The pipe ends that the shell holds after a step, if it held `held` before.
pub open spec fn apply(held: Set<End>, step: ParentStep) -> Set<End> {
    match step {
        ParentStep::OpenPipe(k) => held.insert(End { pipe: k, write: false }).insert(
            End { pipe: k, write: true },
        ),
        ParentStep::CloseRead(k) => held.remove(End { pipe: k, write: false }),
        ParentStep::CloseWrite(k) => held.remove(End { pipe: k, write: true }),
        ParentStep::Fork(_) => held,
        ParentStep::Wait(_) => held,
    }
}

/// The pipe ends that the shell holds after `steps`, if it held `held`
/// before.
pub open spec fn held_from(held: Set<End>, steps: Seq<ParentStep>) -> Set<End>
    decreases steps.len(),
{
    if steps.len() == 0 {
        held
    } else {
        apply(held_from(held, steps.drop_last()), steps.last())
    }
}

/// The pipe ends that the shell holds after `steps`, having held none.
pub open spec fn held_after(steps: Seq<ParentStep>) -> Set<End> {
    held_from(Set::empty(), steps)
}

/// Both ends of the pipes `0..p`.
pub open spec fn ends_below(p: nat) -> Set<End> {
    Set::new(|e: End| e.pipe < p)
}

/// Pipe count: for a pipeline of `n` stages the shell creates exactly
/// `n - 1` pipes, numbered from zero, and starts exactly `n` processes, in
/// the order of the stages. The pipes come first, so every process inherits
/// them all.
pub proof fn lemma_pipe_and_process_count(n: nat)
    requires
        1 <= n <= usize::MAX,
    ensures
        script(n).len() == 2 * n + 3 * (n - 1),
        forall|j: int| 0 <= j < script(n).len() ==> (script(n)[j] is OpenPipe <==> j < n - 1),
        forall|k: int| 0 <= k < n - 1 ==> script(n)[k] == ParentStep::OpenPipe(k as usize),
        forall|j: int|
            0 <= j < script(n).len() ==> (script(n)[j] is Fork <==> n - 1 <= j < 2 * n - 1),
        forall|j: int|
            n - 1 <= j < 2 * n - 1 ==> #[trigger] script(n)[j] == ParentStep::Fork(
                (j - (n - 1)) as usize,
            ),
{
}

proof fn lemma_held_concat(held: Set<End>, a: Seq<ParentStep>, b: Seq<ParentStep>)
    ensures
        held_from(held, a + b) == held_from(held_from(held, a), b),
    decreases b.len(),
{
    if b.len() == 0 {
        assert(a + b =~= a);
    } else {
        lemma_held_concat(held, a, b.drop_last());
        assert((a + b).drop_last() =~= a + b.drop_last());
        assert((a + b).last() == b.last());
    }
}

proof fn lemma_held_opens(p: nat, k: nat)
    requires
        k <= p <= usize::MAX,
    ensures
        held_from(Set::empty(), opens(p).take(k as int)) == ends_below(k),
    decreases k,
{
    if k == 0 {
        assert(ends_below(0) =~= Set::<End>::empty());
    } else {
        lemma_held_opens(p, (k - 1) as nat);
        assert(opens(p).take(k as int).drop_last() =~= opens(p).take(k - 1));
        assert(ends_below(k) =~= ends_below((k - 1) as nat).insert(
            End { pipe: (k - 1) as usize, write: false },
        ).insert(End { pipe: (k - 1) as usize, write: true }));
    }
}

proof fn lemma_held_forks(held: Set<End>, n: nat, i: nat)
    requires
        i <= n,
    ensures
        held_from(held, forks(n).take(i as int)) == held,
    decreases i,
{
    if i > 0 {
        lemma_held_forks(held, n, (i - 1) as nat);
        assert(forks(n).take(i as int).drop_last() =~= forks(n).take(i - 1));
    }
}

proof fn lemma_held_waits(held: Set<End>, n: nat, i: nat)
    requires
        i <= n,
    ensures
        held_from(held, waits(n).take(i as int)) == held,
    decreases i,
{
    if i > 0 {
        lemma_held_waits(held, n, (i - 1) as nat);
        assert(waits(n).take(i as int).drop_last() =~= waits(n).take(i - 1));
    }
}

/// The ends of the pipes `0..p` that the first `m` closing steps leave
/// open.
spec fn still_open(p: nat, m: nat) -> Set<End> {
    Set::new(
        |e: End|
            e.pipe < p && 2 * e.pipe + (if e.write {
                1int
            } else {
                0int
            }) >= m,
    )
}

proof fn lemma_held_closes(p: nat, m: nat)
    requires
        m <= 2 * p,
        p <= usize::MAX,
    ensures
        held_from(ends_below(p), closes(p).take(m as int)) == still_open(p, m),
    decreases m,
{
    if m == 0 {
        assert(still_open(p, 0) =~= ends_below(p));
    } else {
        lemma_held_closes(p, (m - 1) as nat);
        assert(closes(p).take(m as int).drop_last() =~= closes(p).take(m - 1));
        let j = m - 1;
        let gone = End { pipe: (j / 2) as usize, write: j % 2 != 0 };
        assert(still_open(p, m) =~= still_open(p, (m - 1) as nat).remove(gone));
    }
}

/// Descriptor hygiene: when the shell starts a process it holds every pipe,
/// so the process inherits them all; when it waits, for the first process
/// and for every later one, it holds no pipe end any more; and at the end of
/// the pipeline it holds none.
pub proof fn lemma_parent_holds_no_pipe(n: nat)
    requires
        n <= usize::MAX,
    ensures
        held_after(script(n)) == Set::<End>::empty(),
        forall|j: int|
            0 <= j < script(n).len() && script(n)[j] is Wait ==> held_after(script(n).take(j))
                == Set::<End>::empty(),
        forall|j: int|
            0 <= j < script(n).len() && script(n)[j] is Fork ==> held_after(script(n).take(j))
                == ends_below(pipes_for(n)),
{
    let p = pipes_for(n);
    let s = script(n);
    let none = Set::<End>::empty();
    let head = opens(p) + forks(n) + closes(p);
    assert(opens(p).take(p as int) =~= opens(p));
    assert(closes(p).take(2 * p as int) =~= closes(p));
    lemma_held_opens(p, p);
    lemma_held_closes(p, 2 * p);
    assert(still_open(p, 2 * p) =~= none);
    assert forall|i: nat| i <= n implies held_after(opens(p) + forks(n).take(i as int))
        == ends_below(p) by {
        lemma_held_concat(none, opens(p), forks(n).take(i as int));
        lemma_held_forks(ends_below(p), n, i);
    }
    assert(forks(n).take(n as int) =~= forks(n));
    assert(held_after(opens(p) + forks(n)) == ends_below(p));
    lemma_held_concat(none, opens(p) + forks(n), closes(p));
    assert(held_after(head) == none);
    assert forall|i: nat| i <= n implies held_after(head + waits(n).take(i as int)) == none by {
        lemma_held_concat(none, head, waits(n).take(i as int));
        lemma_held_waits(none, n, i);
    }
    assert(waits(n).take(n as int) =~= waits(n));
    assert(s =~= head + waits(n));
    assert forall|j: int| 0 <= j < s.len() && s[j] is Wait implies held_after(s.take(j))
        == none by {
        let i = (j - head.len()) as nat;
        assert(s.take(j) =~= head + waits(n).take(i as int));
    }
    assert forall|j: int| 0 <= j < s.len() && s[j] is Fork implies held_after(s.take(j))
        == ends_below(p) by {
        let i = (j - p) as nat;
        assert(s.take(j) =~= opens(p) + forks(n).take(i as int));
    }
}

} // verus!
