//! The traversal and placement engine, as a state machine.
//!
//! A `Processor` holds the targets still to visit and the step it waits on.
//! Each call of `Processor::process` takes what the filesystem answered to
//! the previous action and returns the next action: inspect a path, list a
//! directory, probe a destination, create a directory, move or copy a file,
//! or finish. The caller performs each action and hands back its result.
//! Every entry attempt leaves a `Report`.
use vstd::prelude::*;
use crate::meta::{parse_name, render_text, Meta, MetaError, MetaView};
use crate::settings::{opt_string_view, Args, Settings};

verus! {

/// What a path turned out to be.
#[derive(Debug, Clone, Copy, PartialEq, Eq, Structural)]
pub enum Kind {
    File,
    Dir,
    /// Neither a regular file nor a directory.
    Other,
}

/// What the filesystem told of an inspected path.
#[derive(Debug)]
pub struct Info {
    pub kind: Kind,
    /// The final component of the path, where it is valid UTF-8.
    pub name: Option<String>,
    /// The directory that holds the path, where it has one.
    pub parent: Option<String>,
}

/// What stands at a destination path.
#[derive(Debug, Clone, Copy, PartialEq, Eq, Structural)]
pub enum Presence {
    Missing,
    Dir,
    /// Something that is not a directory.
    NotDir,
}

/// A destination: `base`, then the series subdirectory if any, then the
/// file name if any.
#[derive(Debug)]
pub struct Place {
    pub base: String,
    pub series: Option<String>,
    pub file: Option<String>,
}

/// Why an entry failed.
#[derive(Debug, Clone, Copy, PartialEq, Eq, Structural)]
pub enum Problem {
    /// The path could not be inspected.
    Stat,
    /// The directory could not be read.
    ReadDir,
    /// An entry of the directory could not be read.
    ReadEntry,
    /// The file name is missing or not valid UTF-8.
    Name,
    /// The file name does not parse.
    Parse(MetaError),
    /// There is no output directory and the file has no parent.
    NoParent,
    /// The destination directory exists and is not a directory.
    NotADirectory,
    /// The destination directory could not be created.
    CreateDir,
    /// The move or copy failed.
    Transfer,
}

/// A failed entry: its path, the problem, and what the filesystem said.
#[derive(Debug)]
pub struct Failure {
    pub path: String,
    pub problem: Problem,
    pub detail: Option<String>,
}

/// What became of one entry.
#[derive(Debug)]
pub enum Outcome {
    /// The file was moved or copied (or, in a dry run, would have been).
    Organised { to: Place, moved: bool, simulated: bool, created: bool, overwrote: bool },
    /// The destination file exists and overwriting is off.
    Skipped(Place),
    /// A subdirectory left out because the run is not recursive.
    SkippedDir,
    /// Neither a file nor a directory.
    Ignored,
    Failed(Failure),
}

/// One entry attempt.
#[derive(Debug)]
pub struct Report {
    pub path: String,
    pub outcome: Outcome,
}

/// A path still to visit; `top` marks the targets themselves.
#[derive(Debug)]
pub enum Pending {
    Path { path: String, top: bool },
    /// An entry of `dir` that could not be read.
    Broken { dir: String, detail: String },
}

/// A file on its way to its destination.
#[derive(Debug)]
pub struct Job {
    pub path: String,
    pub dir: Place,
    pub file: Place,
    /// The destination directory was missing.
    pub created: bool,
}

/// The step that the processor waits on.
#[derive(Debug)]
pub enum Phase {
    Idle,
    Inspecting { path: String, top: bool },
    Listing { path: String },
    ProbingDir(Job),
    Creating(Job),
    ProbingFile(Job),
    Transferring { job: Job, overwrote: bool },
    Finished(Result<(), Failure>),
}

/// What the filesystem answered.
#[derive(Debug)]
pub enum Event {
    Start,
    Inspected(Result<Info, String>),
    /// The entries of a directory in the order of enumeration: each a path,
    /// or what went wrong in reading it.
    Listed(Result<Vec<Result<String, String>>, String>),
    Probed(Presence),
    Created(Result<(), String>),
    Transferred(Result<(), String>),
}

/// What the caller is to do next.
#[derive(Debug)]
pub enum Action {
    Inspect(String),
    List(String),
    Probe(Place),
    /// Create the directory and its missing ancestors.
    CreateDir(Place),
    Transfer { from: String, to: Place, moving: bool },
    /// The run is over: success, or the error that stopped it.
    Finish(Result<(), Failure>),
}

/// The organiser's state machine.
pub struct Processor {
    settings: Settings,
    pending: Vec<Pending>,
    phase: Phase,
    reports: Vec<Report>,
}

/// The mathematical value of a `Processor`: the stack of paths still to
/// visit (the next one last), the phase, and the reports so far.
pub struct ProcessorView {
    pub settings: Settings,
    pub pending: Seq<Pending>,
    pub phase: Phase,
    pub reports: Seq<Report>,
}

impl View for Processor {
    type V = ProcessorView;

    closed spec fn view(&self) -> ProcessorView {
        ProcessorView {
            settings: self.settings,
            pending: self.pending@,
            phase: self.phase,
            reports: self.reports@,
        }
    }
}

pub open spec fn with_phase(s: ProcessorView, p: Phase) -> ProcessorView {
    ProcessorView { settings: s.settings, pending: s.pending, phase: p, reports: s.reports }
}

pub open spec fn with_pending(s: ProcessorView, p: Seq<Pending>) -> ProcessorView {
    ProcessorView { settings: s.settings, pending: p, phase: s.phase, reports: s.reports }
}

pub open spec fn with_report(s: ProcessorView, path: String, o: Outcome) -> ProcessorView {
    ProcessorView {
        settings: s.settings,
        pending: s.pending,
        phase: s.phase,
        reports: s.reports.push(Report { path, outcome: o }),
    }
}

/// Takes the next path off the stack and asks to inspect it; an unreadable
/// entry fails on the way, and ends the run when errors stop it. With
/// nothing left, the run finishes successfully.
pub open spec fn advance(s: ProcessorView) -> (ProcessorView, Action)
    decreases s.pending.len(),
{
    if s.pending.len() == 0 {
        (with_phase(s, Phase::Finished(Ok(()))), Action::Finish(Ok(())))
    } else {
        let rest = with_pending(s, s.pending.drop_last());
        match s.pending.last() {
            Pending::Path { path, top } => (
                with_phase(rest, Phase::Inspecting { path, top }),
                Action::Inspect(path),
            ),
            Pending::Broken { dir, detail } => {
                let f = Failure { path: dir, problem: Problem::ReadEntry, detail: Some(detail) };
                let r = with_report(rest, dir, Outcome::Failed(f));
                if s.settings.exit {
                    (with_phase(r, Phase::Finished(Err(f))), Action::Finish(Err(f)))
                } else {
                    advance(r)
                }
            },
        }
    }
}

/// Reports a failed entry; then ends the run when errors stop it, and
/// goes on with the next path otherwise.
pub open spec fn fail(s: ProcessorView, f: Failure) -> (ProcessorView, Action) {
    let r = with_report(s, f.path, Outcome::Failed(f));
    if s.settings.exit {
        (with_phase(r, Phase::Finished(Err(f))), Action::Finish(Err(f)))
    } else {
        advance(r)
    }
}

pub open spec fn pending_of(dir: String, e: Result<String, String>) -> Pending {
    match e {
        Ok(path) => Pending::Path { path, top: false },
        Err(detail) => Pending::Broken { dir, detail },
    }
}

/// The entries of a directory as stack items: the first entry on top.
pub open spec fn stacked(dir: String, es: Seq<Result<String, String>>) -> Seq<Pending> {
    Seq::new(es.len(), |k: int| pending_of(dir, es[es.len() - 1 - k]))
}

/// Where a file goes, from its name: the base directory and the record, or
/// why there is none.
pub open spec fn file_plan(settings: Settings, info: Info) -> Result<(String, MetaView), Problem> {
    match info.name {
        None => Err(Problem::Name),
        Some(n) => match parse_name(n@) {
            Err(e) => Err(Problem::Parse(e)),
            Ok(m) => match settings.output {
                Some(o) => Ok((o, m)),
                None => match info.parent {
                    Some(p) => Ok((p, m)),
                    None => Err(Problem::NoParent),
                },
            },
        },
    }
}

/// `job` takes the file at `path` to `base`, into the series subdirectory
/// when `series` is set, under its canonical name.
pub open spec fn planned(job: Job, path: String, base: String, m: MetaView, series: bool) -> bool {
    &&& job.path == path
    &&& job.dir.base == base
    &&& job.dir.file is None
    &&& opt_string_view(job.dir.series) == (if series {
        Some(m.series)
    } else {
        None
    })
    &&& job.file.base == base
    &&& job.file.series == job.dir.series
    &&& job.file.file matches Some(f) && f@ == render_text(m)
    &&& !job.created
}

pub open spec fn with_created(job: Job) -> Job {
    Job { path: job.path, dir: job.dir, file: job.file, created: true }
}

pub open spec fn probe_file(s: ProcessorView, job: Job) -> (ProcessorView, Action) {
    (with_phase(s, Phase::ProbingFile(job)), Action::Probe(job.file))
}

pub open spec fn transfer_action(settings: Settings, job: Job) -> Action {
    Action::Transfer { from: job.path, to: job.file, moving: settings.move_files }
}

pub open spec fn organised(settings: Settings, job: Job, simulated: bool, overwrote: bool) -> Outcome {
    Outcome::Organised {
        to: job.file,
        moved: settings.move_files,
        simulated,
        created: job.created,
        overwrote,
    }
}

/// Moves or copies the file; in a dry run, only reports it.
pub open spec fn transfer(s: ProcessorView, job: Job, overwrote: bool) -> (ProcessorView, Action) {
    if s.settings.dry_run {
        advance(with_report(s, job.path, organised(s.settings, job, true, overwrote)))
    } else {
        (with_phase(s, Phase::Transferring { job, overwrote }), transfer_action(s.settings, job))
    }
}

/// The file whose inspection starts a transfer: its path, the base
/// directory and the record.
pub open spec fn plan_case(s: ProcessorView, e: Event) -> Option<(String, String, MetaView)> {
    match s.phase {
        Phase::Inspecting { path, top } => match e {
            Event::Inspected(Ok(info)) => if info.kind is File {
                match file_plan(s.settings, info) {
                    Ok(p) => Some((path, p.0, p.1)),
                    Err(_) => None,
                }
            } else {
                None
            },
            _ => None,
        },
        _ => None,
    }
}

/// The next state and action, for every phase and answer but the one of
/// `plan_case`. An answer that does not fit the phase is ignored: the
/// action is asked for again.
pub open spec fn step(s: ProcessorView, e: Event) -> (ProcessorView, Action) {
    match s.phase {
        Phase::Idle => advance(s),
        Phase::Finished(r) => (s, Action::Finish(r)),
        Phase::Inspecting { path, top } => match e {
            Event::Inspected(Err(d)) => fail(
                s,
                Failure { path, problem: Problem::Stat, detail: Some(d) },
            ),
            Event::Inspected(Ok(info)) => match info.kind {
                Kind::Dir => if top || s.settings.recursive {
                    (with_phase(s, Phase::Listing { path }), Action::List(path))
                } else {
                    advance(with_report(s, path, Outcome::SkippedDir))
                },
                Kind::Other => advance(with_report(s, path, Outcome::Ignored)),
                Kind::File => match file_plan(s.settings, info) {
                    Err(p) => fail(s, Failure { path, problem: p, detail: None }),
                    Ok(_) => (s, Action::Inspect(path)),
                },
            },
            _ => (s, Action::Inspect(path)),
        },
        Phase::Listing { path } => match e {
            Event::Listed(Err(d)) => fail(
                s,
                Failure { path, problem: Problem::ReadDir, detail: Some(d) },
            ),
            Event::Listed(Ok(entries)) => advance(
                with_pending(s, s.pending + stacked(path, entries@)),
            ),
            _ => (s, Action::List(path)),
        },
        Phase::ProbingDir(job) => match e {
            Event::Probed(Presence::NotDir) => fail(
                s,
                Failure { path: job.path, problem: Problem::NotADirectory, detail: None },
            ),
            Event::Probed(Presence::Missing) => if s.settings.dry_run {
                probe_file(s, with_created(job))
            } else {
                (with_phase(s, Phase::Creating(job)), Action::CreateDir(job.dir))
            },
            Event::Probed(Presence::Dir) => probe_file(s, job),
            _ => (s, Action::Probe(job.dir)),
        },
        Phase::Creating(job) => match e {
            Event::Created(Err(d)) => fail(
                s,
                Failure { path: job.path, problem: Problem::CreateDir, detail: Some(d) },
            ),
            Event::Created(Ok(())) => probe_file(s, with_created(job)),
            _ => (s, Action::CreateDir(job.dir)),
        },
        Phase::ProbingFile(job) => match e {
            Event::Probed(Presence::Missing) => transfer(s, job, false),
            Event::Probed(_) => if s.settings.force {
                transfer(s, job, true)
            } else {
                advance(with_report(s, job.path, Outcome::Skipped(job.file)))
            },
            _ => (s, Action::Probe(job.file)),
        },
        Phase::Transferring { job, overwrote } => match e {
            Event::Transferred(Err(d)) => fail(
                s,
                Failure { path: job.path, problem: Problem::Transfer, detail: Some(d) },
            ),
            Event::Transferred(Ok(())) => advance(
                with_report(s, job.path, organised(s.settings, job, false, overwrote)),
            ),
            _ => (s, transfer_action(s.settings, job)),
        },
    }
}

/// `t` and `a` are the state and action that follow `s` on `e`: for a file
/// that parses, the probe of its destination directory; else `step`.
pub open spec fn stepped(s: ProcessorView, e: Event, t: ProcessorView, a: Action) -> bool {
    match plan_case(s, e) {
        Some(p) => match t.phase {
            Phase::ProbingDir(job) => {
                &&& planned(job, p.0, p.1, p.2, s.settings.series)
                &&& t == with_phase(s, t.phase)
                &&& a == Action::Probe(job.dir)
            },
            _ => false,
        },
        None => (t, a) == step(s, e),
    }
}


proof fn lemma_advance_phase(s: ProcessorView, p: Phase)
    ensures
        advance(with_phase(s, p)) == advance(s),
    decreases s.pending.len(),
{
    if s.pending.len() > 0 {
        let rest = with_pending(s, s.pending.drop_last());
        match s.pending.last() {
            Pending::Path { path, top } => {},
            Pending::Broken { dir, detail } => {
                let f = Failure { path: dir, problem: Problem::ReadEntry, detail: Some(detail) };
                lemma_advance_phase(with_report(rest, dir, Outcome::Failed(f)), p);
                assert(with_report(with_pending(with_phase(s, p), s.pending.drop_last()), dir, Outcome::Failed(f))
                    == with_phase(with_report(rest, dir, Outcome::Failed(f)), p));
            },
        }
    }
}

proof fn lemma_phase_irrelevant(s: ProcessorView, p: Phase)
    ensures
        advance(with_phase(s, p)) == advance(s),
        forall|f: Failure| fail(with_phase(s, p), f) == #[trigger] fail(s, f),
        forall|path: String, o: Outcome|
            advance(with_report(with_phase(s, p), path, o)) == #[trigger] advance(
                with_report(s, path, o),
            ),
{
    lemma_advance_phase(s, p);
    assert forall|path: String, o: Outcome|
        advance(with_report(with_phase(s, p), path, o)) == #[trigger] advance(
            with_report(s, path, o),
        ) by {
        lemma_advance_phase(with_report(s, path, o), p);
        assert(with_report(with_phase(s, p), path, o) == with_phase(with_report(s, path, o), p));
    }
    assert forall|f: Failure| fail(with_phase(s, p), f) == #[trigger] fail(s, f) by {
        lemma_advance_phase(with_report(s, f.path, Outcome::Failed(f)), p);
        assert(with_report(with_phase(s, p), f.path, Outcome::Failed(f)) == with_phase(
            with_report(s, f.path, Outcome::Failed(f)),
            p,
        ));
    }
}

fn clone_opt(o: &Option<String>) -> (r: Option<String>)
    ensures
        r == *o,
{
    match o {
        Some(s) => Some(s.clone()),
        None => None,
    }
}

fn clone_place(p: &Place) -> (r: Place)
    ensures
        r == *p,
{
    Place { base: p.base.clone(), series: clone_opt(&p.series), file: clone_opt(&p.file) }
}

fn clone_failure(f: &Failure) -> (r: Failure)
    ensures
        r == *f,
{
    Failure { path: f.path.clone(), problem: f.problem, detail: clone_opt(&f.detail) }
}

fn clone_result(r: &Result<(), Failure>) -> (c: Result<(), Failure>)
    ensures
        c == *r,
{
    match r {
        Ok(u) => Ok(*u),
        Err(f) => Err(clone_failure(f)),
    }
}

impl Processor {
    /// A processor that visits `args.targets` in order, with the settings
    /// that `args` asks for.
    pub fn with_args(args: Args) -> (r: Processor)
        ensures
            r@.settings == (Settings {
                output: args.output,
                series: args.series,
                move_files: args.move_files,
                dry_run: args.dry_run,
                exit: args.exit,
                force: args.force,
                recursive: args.recursive,
            }),
            r@.pending == Seq::new(
                args.targets@.len(),
                |k: int| Pending::Path { path: args.targets@[args.targets@.len() - 1 - k], top: true },
            ),
            r@.phase == Phase::Idle,
            r@.reports.len() == 0,
    {
        let Args { targets, output, series, move_files, dry_run, exit, force, recursive, .. } = args;
        let settings = Settings { output, series, move_files, dry_run, exit, force, recursive };
        let ghost orig = targets@;
        let ghost n = orig.len();
        let mut targets = targets;
        let mut pending: Vec<Pending> = Vec::new();
        while targets.len() > 0
            invariant
                n == orig.len(),
                targets@.len() <= n,
                targets@ == orig.subrange(0, targets@.len() as int),
                pending@ == Seq::new(
                    (n - targets@.len()) as nat,
                    |k: int| Pending::Path { path: orig[n - 1 - k], top: true },
                ),
            decreases targets@.len(),
        {
            let t = targets.pop().unwrap();
            pending.push(Pending::Path { path: t, top: true });
            assert(pending@ =~= Seq::new(
                (n - targets@.len()) as nat,
                |k: int| Pending::Path { path: orig[n - 1 - k], top: true },
            ));
        }
        let r = Processor { settings, pending, phase: Phase::Idle, reports: Vec::new() };
        assert(r@.pending =~= Seq::new(
            n,
            |k: int| Pending::Path { path: orig[n - 1 - k], top: true },
        ));
        r
    }

    /// The reports so far, one per entry attempt, in order.
    pub fn reports(&self) -> (r: &Vec<Report>)
        ensures
            r@ == self@.reports,
    {
        &self.reports
    }

    fn advance(&mut self) -> (a: Action)
        ensures
            (final(self)@, a) == advance(old(self)@),
    {
        let ghost start = self@;
        loop
            invariant
                start == old(self)@,
                advance(self@) == advance(start),
            decreases self.pending@.len(),
        {
            let ghost before = self@;
            match self.pending.pop() {
                None => {
                    self.phase = Phase::Finished(Ok(()));
                    assert(self@ == with_phase(before, Phase::Finished(Ok(()))));
                    return Action::Finish(Ok(()));
                },
                Some(Pending::Path { path, top }) => {
                    let p = path.clone();
                    self.phase = Phase::Inspecting { path, top };
                    assert(self@ == with_phase(
                        with_pending(before, before.pending.drop_last()),
                        Phase::Inspecting { path, top },
                    ));
                    return Action::Inspect(p);
                },
                Some(Pending::Broken { dir, detail }) => {
                    let f = Failure {
                        path: dir.clone(),
                        problem: Problem::ReadEntry,
                        detail: Some(detail),
                    };
                    let f2 = clone_failure(&f);
                    self.reports.push(Report { path: dir, outcome: Outcome::Failed(f) });
                    assert(self@ == with_report(
                        with_pending(before, before.pending.drop_last()),
                        dir,
                        Outcome::Failed(f),
                    ));
                    if self.settings.exit {
                        let f3 = clone_failure(&f2);
                        self.phase = Phase::Finished(Err(f2));
                        return Action::Finish(Err(f3));
                    }
                },
            }
        }
    }

    fn fail(&mut self, f: Failure) -> (a: Action)
        ensures
            (final(self)@, a) == fail(old(self)@, f),
    {
        let path = f.path.clone();
        let f2 = clone_failure(&f);
        self.reports.push(Report { path, outcome: Outcome::Failed(f) });
        if self.settings.exit {
            let f3 = clone_failure(&f2);
            self.phase = Phase::Finished(Err(f2));
            Action::Finish(Err(f3))
        } else {
            self.advance()
        }
    }

    fn probe_file(&mut self, job: Job) -> (a: Action)
        ensures
            (final(self)@, a) == probe_file(old(self)@, job),
    {
        let to = clone_place(&job.file);
        self.phase = Phase::ProbingFile(job);
        Action::Probe(to)
    }

    fn transfer(&mut self, job: Job, overwrote: bool) -> (a: Action)
        ensures
            (final(self)@, a) == transfer(old(self)@, job, overwrote),
    {
        if self.settings.dry_run {
            let outcome = Outcome::Organised {
                to: job.file,
                moved: self.settings.move_files,
                simulated: true,
                created: job.created,
                overwrote,
            };
            self.reports.push(Report { path: job.path, outcome });
            self.advance()
        } else {
            let action = Action::Transfer {
                from: job.path.clone(),
                to: clone_place(&job.file),
                moving: self.settings.move_files,
            };
            self.phase = Phase::Transferring { job, overwrote };
            action
        }
    }

    /// Where the file at `path` goes: its job, or the problem that stops it.
    fn plan(&self, path: String, info: Info) -> (r: Result<Job, Problem>)
        ensures
            match file_plan(self@.settings, info) {
                Ok(p) => r matches Ok(job) && planned(job, path, p.0, p.1, self@.settings.series),
                Err(e) => r == Err::<Job, Problem>(e),
            },
    {
        let ghost info0 = info;
        let Info { kind: _, name, parent } = info;
        let name = match name {
            Some(n) => n,
            None => {
                return Err(Problem::Name);
            },
        };
        let meta = match Meta::parse(name.as_str()) {
            Ok(m) => m,
            Err(e) => {
                return Err(Problem::Parse(e));
            },
        };
        let base = match &self.settings.output {
            Some(o) => o.clone(),
            None => match parent {
                Some(p) => p,
                None => {
                    return Err(Problem::NoParent);
                },
            },
        };
        let new_name = meta.render();
        let series = if self.settings.series {
            Some(meta.series)
        } else {
            None
        };
        let dir = Place { base: base.clone(), series: clone_opt(&series), file: None };
        let file = Place { base, series, file: Some(new_name) };
        Ok(Job { path, dir, file, created: false })
    }

    /// Takes what the filesystem answered to the last action and returns
    /// the next action; see `stepped`.
    pub fn process(&mut self, event: Event) -> (a: Action)
        ensures
            stepped(old(self)@, event, final(self)@, a),
    {
        let ghost s = self@;
        let mut phase = Phase::Idle;
        std::mem::swap(&mut phase, &mut self.phase);
        assert(self@ == with_phase(s, Phase::Idle));
        assert(s == with_phase(self@, s.phase));
        match phase {
            Phase::Idle => self.advance(),
            Phase::Finished(r) => {
                let c = clone_result(&r);
                self.phase = Phase::Finished(r);
                Action::Finish(c)
            },
            Phase::Inspecting { path, top } => self.on_inspected(path, top, event),
            Phase::Listing { path } => self.on_listed(path, event),
            Phase::ProbingDir(job) => self.on_probed_dir(job, event),
            Phase::Creating(job) => self.on_created(job, event),
            Phase::ProbingFile(job) => self.on_probed_file(job, event),
            Phase::Transferring { job, overwrote } => self.on_transferred(job, overwrote, event),
        }
    }

    fn on_inspected(&mut self, path: String, top: bool, event: Event) -> (a: Action)
        requires
            old(self)@.phase is Idle,
        ensures
            stepped(with_phase(old(self)@, Phase::Inspecting { path, top }), event, final(self)@, a),
    {
        let ghost s = with_phase(self@, Phase::Inspecting { path, top });
        proof {
            lemma_phase_irrelevant(s, Phase::Idle);
            assert(with_phase(s, Phase::Idle) == self@);
        }
        match event {
            Event::Inspected(Err(d)) => self.fail(
                Failure { path, problem: Problem::Stat, detail: Some(d) },
            ),
            Event::Inspected(Ok(info)) => match info.kind {
                Kind::Dir => {
                    if top || self.settings.recursive {
                        let p = path.clone();
                        self.phase = Phase::Listing { path };
                        Action::List(p)
                    } else {
                        self.reports.push(Report { path, outcome: Outcome::SkippedDir });
                        self.advance()
                    }
                },
                Kind::Other => {
                    self.reports.push(Report { path, outcome: Outcome::Ignored });
                    self.advance()
                },
                Kind::File => {
                    let p = path.clone();
                    match self.plan(p, info) {
                        Ok(job) => {
                            let d = clone_place(&job.dir);
                            self.phase = Phase::ProbingDir(job);
                            Action::Probe(d)
                        },
                        Err(problem) => self.fail(Failure { path, problem, detail: None }),
                    }
                },
            },
            _ => {
                let p = path.clone();
                self.phase = Phase::Inspecting { path, top };
                Action::Inspect(p)
            },
        }
    }

    fn on_listed(&mut self, path: String, event: Event) -> (a: Action)
        requires
            old(self)@.phase is Idle,
        ensures
            stepped(with_phase(old(self)@, Phase::Listing { path }), event, final(self)@, a),
    {
        let ghost s = with_phase(self@, Phase::Listing { path });
        proof {
            lemma_phase_irrelevant(s, Phase::Idle);
            assert(with_phase(s, Phase::Idle) == self@);
        }
        match event {
            Event::Listed(Err(d)) => self.fail(
                Failure { path, problem: Problem::ReadDir, detail: Some(d) },
            ),
            Event::Listed(Ok(entries)) => {
                let ghost es = entries@;
                self.push_entries(&path, entries);
                proof {
                    lemma_advance_phase(with_pending(s, s.pending + stacked(path, es)), Phase::Idle);
                }
                self.advance()
            },
            _ => {
                let p = path.clone();
                self.phase = Phase::Listing { path };
                Action::List(p)
            },
        }
    }

    fn on_probed_dir(&mut self, job: Job, event: Event) -> (a: Action)
        requires
            old(self)@.phase is Idle,
        ensures
            stepped(with_phase(old(self)@, Phase::ProbingDir(job)), event, final(self)@, a),
    {
        let ghost s = with_phase(self@, Phase::ProbingDir(job));
        proof {
            lemma_phase_irrelevant(s, Phase::Idle);
            assert(with_phase(s, Phase::Idle) == self@);
        }
        match event {
            Event::Probed(Presence::NotDir) => self.fail(
                Failure { path: job.path, problem: Problem::NotADirectory, detail: None },
            ),
            Event::Probed(Presence::Missing) => {
                if self.settings.dry_run {
                    let Job { path, dir, file, created: _ } = job;
                    self.probe_file(Job { path, dir, file, created: true })
                } else {
                    let d = clone_place(&job.dir);
                    self.phase = Phase::Creating(job);
                    Action::CreateDir(d)
                }
            },
            Event::Probed(Presence::Dir) => self.probe_file(job),
            _ => {
                let d = clone_place(&job.dir);
                self.phase = Phase::ProbingDir(job);
                Action::Probe(d)
            },
        }
    }

    fn on_created(&mut self, job: Job, event: Event) -> (a: Action)
        requires
            old(self)@.phase is Idle,
        ensures
            stepped(with_phase(old(self)@, Phase::Creating(job)), event, final(self)@, a),
    {
        let ghost s = with_phase(self@, Phase::Creating(job));
        proof {
            lemma_phase_irrelevant(s, Phase::Idle);
            assert(with_phase(s, Phase::Idle) == self@);
        }
        match event {
            Event::Created(Err(d)) => self.fail(
                Failure { path: job.path, problem: Problem::CreateDir, detail: Some(d) },
            ),
            Event::Created(Ok(_)) => {
                let Job { path, dir, file, created: _ } = job;
                self.probe_file(Job { path, dir, file, created: true })
            },
            _ => {
                let d = clone_place(&job.dir);
                self.phase = Phase::Creating(job);
                Action::CreateDir(d)
            },
        }
    }

    fn on_probed_file(&mut self, job: Job, event: Event) -> (a: Action)
        requires
            old(self)@.phase is Idle,
        ensures
            stepped(with_phase(old(self)@, Phase::ProbingFile(job)), event, final(self)@, a),
    {
        let ghost s = with_phase(self@, Phase::ProbingFile(job));
        proof {
            lemma_phase_irrelevant(s, Phase::Idle);
            assert(with_phase(s, Phase::Idle) == self@);
        }
        let ghost j = job;
        match event {
            Event::Probed(Presence::Missing) => self.transfer(job, false),
            Event::Probed(_) => {
                if self.settings.force {
                    self.transfer(job, true)
                } else {
                    self.reports.push(Report { path: job.path, outcome: Outcome::Skipped(job.file) });
                    self.advance()
                }
            },
            _ => {
                let f = clone_place(&job.file);
                self.phase = Phase::ProbingFile(job);
                Action::Probe(f)
            },
        }
    }

    fn on_transferred(&mut self, job: Job, overwrote: bool, event: Event) -> (a: Action)
        requires
            old(self)@.phase is Idle,
        ensures
            stepped(
                with_phase(old(self)@, Phase::Transferring { job, overwrote }),
                event,
                final(self)@,
                a,
            ),
    {
        let ghost s = with_phase(self@, Phase::Transferring { job, overwrote });
        proof {
            lemma_phase_irrelevant(s, Phase::Idle);
            assert(with_phase(s, Phase::Idle) == self@);
        }
        let ghost j = job;
        match event {
            Event::Transferred(Err(d)) => self.fail(
                Failure { path: job.path, problem: Problem::Transfer, detail: Some(d) },
            ),
            Event::Transferred(Ok(_)) => {
                let outcome = Outcome::Organised {
                    to: job.file,
                    moved: self.settings.move_files,
                    simulated: false,
                    created: job.created,
                    overwrote,
                };
                self.reports.push(Report { path: job.path, outcome });
                self.advance()
            },
            _ => {
                let action = Action::Transfer {
                    from: job.path.clone(),
                    to: clone_place(&job.file),
                    moving: self.settings.move_files,
                };
                self.phase = Phase::Transferring { job, overwrote };
                action
            },
        }
    }

    /// Pushes the entries of the directory `dir` on the stack, the first on top.
    fn push_entries(&mut self, dir: &String, entries: Vec<Result<String, String>>)
        ensures
            final(self)@ == with_pending(old(self)@, old(self)@.pending + stacked(*dir, entries@)),
    {
        let ghost orig = entries@;
        let ghost n = orig.len();
        let ghost base = self@.pending;
        let mut es = entries;
        while es.len() > 0
            invariant
                n == orig.len(),
                es@.len() <= n,
                es@ == orig.subrange(0, es@.len() as int),
                self@ == with_pending(old(self)@, base + stacked(*dir, orig).subrange(0, n - es@.len())),
                base == old(self)@.pending,
            decreases es@.len(),
        {
            let ghost before = self@;
            let x = es.pop().unwrap();
            let item = match x {
                Ok(p) => Pending::Path { path: p, top: false },
                Err(d) => Pending::Broken { dir: dir.clone(), detail: d },
            };
            self.pending.push(item);
            assert(base + stacked(*dir, orig).subrange(0, n - es@.len()) =~= before.pending.push(item));
        }
        assert(stacked(*dir, orig).subrange(0, n as int) =~= stacked(*dir, orig));
    }
}

} // verus!
