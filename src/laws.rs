//! Properties of the organiser's state machine, over every state and answer.
use vstd::prelude::*;
use crate::meta::{parse_name, MetaError, MetaView};
use crate::process::{
    advance, fail, organised, stacked, step, stepped, transfer, with_pending, with_phase,
    with_report, Action, Event, Failure, Info, Job, Kind, Outcome, Pending, Phase, Presence,
    Problem, ProcessorView, Report,
};
use crate::settings::Settings;

verus! {

/// What `advance` keeps and what it may do: it keeps the settings and the
/// earlier reports, and asks to inspect a path or finishes. Reports it adds
/// are failures; where errors stop the run, one failure finishes it, and
/// otherwise it finishes only successfully, with nothing left to visit.
pub proof fn lemma_advance(s: ProcessorView)
    ensures
        ({
            let (t, a) = advance(s);
            &&& t.settings == s.settings
            &&& s.reports.len() <= t.reports.len()
            &&& t.reports.subrange(0, s.reports.len() as int) == s.reports
            &&& forall|i: int|
                s.reports.len() <= i < t.reports.len() ==> (#[trigger] t.reports[i]).outcome is Failed
            &&& a is Inspect ==> t.phase is Inspecting
            &&& a is Finish ==> t.phase is Finished
            &&& a is Inspect || a is Finish
            &&& (s.settings.exit && s.reports.len() < t.reports.len()) ==> (t.reports.len()
                == s.reports.len() + 1 && a == Action::Finish(Err(t.reports.last().outcome->Failed_0))
                && t.phase == Phase::Finished(Err(t.reports.last().outcome->Failed_0)))
            &&& (a is Finish && !(s.settings.exit && s.reports.len() < t.reports.len())) ==> (a
                == Action::Finish(Ok(())) && t.pending.len() == 0)
        }),
    decreases s.pending.len(),
{
    if s.pending.len() > 0 {
        let rest = with_pending(s, s.pending.drop_last());
        match s.pending.last() {
            Pending::Path { path, top } => {
                assert(advance(s).0.reports.subrange(0, s.reports.len() as int) =~= s.reports);
            },
            Pending::Broken { dir, detail } => {
                let f = Failure { path: dir, problem: Problem::ReadEntry, detail: Some(detail) };
                let r = with_report(rest, dir, Outcome::Failed(f));
                lemma_advance(r);
                let t = advance(s).0;
                assert(r.reports.subrange(0, s.reports.len() as int) =~= s.reports);
                assert(t.reports.subrange(0, s.reports.len() as int) =~= t.reports.subrange(
                    0,
                    r.reports.len() as int,
                ).subrange(0, s.reports.len() as int));
                assert(t.reports[s.reports.len() as int] == r.reports[s.reports.len() as int]) by {
                    assert(t.reports.subrange(0, r.reports.len() as int)[s.reports.len() as int]
                        == t.reports[s.reports.len() as int]);
                }
            },
        }
    } else {
        assert(advance(s).0.reports.subrange(0, s.reports.len() as int) =~= s.reports);
    }
}

/// What `fail` does: it reports the failure, then stops the run with it
/// where errors stop the run, and goes on as `advance` does otherwise.
pub proof fn lemma_fail(s: ProcessorView, f: Failure)
    ensures
        ({
            let (t, a) = fail(s, f);
            &&& t.settings == s.settings
            &&& s.reports.len() < t.reports.len()
            &&& t.reports[s.reports.len() as int] == (Report { path: f.path, outcome: Outcome::Failed(f) })
            &&& forall|i: int|
                s.reports.len() <= i < t.reports.len() ==> (#[trigger] t.reports[i]).outcome is Failed
            &&& s.settings.exit ==> (a == Action::Finish(Err(f)) && t.phase == Phase::Finished(Err(f))
                && t.reports.len() == s.reports.len() + 1)
            &&& !s.settings.exit ==> (a is Inspect || a == Action::Finish(Ok(())))
            &&& !s.settings.exit ==> (a is Inspect ==> t.phase is Inspecting)
            &&& !s.settings.exit ==> (a is Finish ==> t.phase is Finished && t.pending.len() == 0)
        }),
{
    let r = with_report(s, f.path, Outcome::Failed(f));
    lemma_advance(r);
    if !s.settings.exit {
        let t = advance(r).0;
        assert(t.reports[s.reports.len() as int] == r.reports[s.reports.len() as int]) by {
            assert(t.reports.subrange(0, r.reports.len() as int)[s.reports.len() as int]
                == t.reports[s.reports.len() as int]);
        }
    }
}

/// In a dry run no step creates a directory or moves or copies a file, and
/// no step leads to a state that waits on one.
pub proof fn dry_run_changes_nothing(s: ProcessorView, e: Event, t: ProcessorView, a: Action)
    requires
        s.settings.dry_run,
        !(s.phase is Creating),
        !(s.phase is Transferring),
        stepped(s, e, t, a),
    ensures
        !(a is CreateDir),
        !(a is Transfer),
        !(t.phase is Creating),
        !(t.phase is Transferring),
        t.settings == s.settings,
{
    lemma_advance(s);
    assert forall|f: Failure|
        #![trigger fail(s, f)]
        (fail(s, f).1 is Inspect || fail(s, f).1 is Finish) && !(fail(s, f).0.phase is Creating)
            && !(fail(s, f).0.phase is Transferring) && fail(s, f).0.settings == s.settings by {
        lemma_fail(s, f);
    }
    assert forall|path: String, o: Outcome|
        #![trigger advance(with_report(s, path, o))]
        (advance(with_report(s, path, o)).1 is Inspect || advance(
            with_report(s, path, o),
        ).1 is Finish) && !(advance(with_report(s, path, o)).0.phase is Creating)
            && !(advance(with_report(s, path, o)).0.phase is Transferring)
            && advance(with_report(s, path, o)).0.settings == s.settings by {
        lemma_advance(with_report(s, path, o));
    }
    match s.phase {
        Phase::Listing { path } => match e {
            Event::Listed(Ok(entries)) => {
                lemma_advance(
                    with_pending(
                        s,
                        s.pending + stacked(path, entries@),
                    ),
                );
            },
            _ => {},
        },
        _ => {},
    }
}

/// A file whose name does not parse is reported as failed with the parse
/// error, and is neither moved nor copied.
pub proof fn unparsable_file_fails(
    s: ProcessorView,
    path: String,
    top: bool,
    info: Info,
    err: MetaError,
    t: ProcessorView,
    a: Action,
)
    requires
        s.phase == (Phase::Inspecting { path, top }),
        info.kind == Kind::File,
        info.name matches Some(n) && parse_name(n@) == Err::<MetaView, MetaError>(err),
        stepped(s, Event::Inspected(Ok(info)), t, a),
    ensures
        s.reports.len() < t.reports.len(),
        t.reports[s.reports.len() as int] == (Report {
            path,
            outcome: Outcome::Failed(Failure { path, problem: Problem::Parse(err), detail: None }),
        }),
        !(a is CreateDir),
        !(a is Transfer),
{
    lemma_fail(s, Failure { path, problem: Problem::Parse(err), detail: None });
}

/// Where errors do not stop the run, no step ends it with an error: it
/// finishes only successfully, once nothing is left to visit.
pub proof fn continue_mode_goes_on(s: ProcessorView, e: Event, t: ProcessorView, a: Action)
    requires
        !s.settings.exit,
        !(s.phase is Finished),
        stepped(s, e, t, a),
    ensures
        a is Finish ==> a == Action::Finish(Ok(())) && t.pending.len() == 0,
        t.settings == s.settings,
{
    lemma_advance(s);
    assert forall|f: Failure|
        #![trigger fail(s, f)]
        (fail(s, f).1 is Finish ==> fail(s, f).1 == Action::Finish(Ok(())) && fail(
            s,
            f,
        ).0.pending.len() == 0) && fail(s, f).0.settings == s.settings by {
        lemma_fail(s, f);
    }
    assert forall|path: String, o: Outcome|
        #![trigger advance(with_report(s, path, o))]
        (advance(with_report(s, path, o)).1 is Finish ==> advance(
            with_report(s, path, o),
        ).1 == Action::Finish(Ok(())) && advance(
            with_report(s, path, o),
        ).0.pending.len() == 0) && advance(with_report(s, path, o)).0.settings
            == s.settings by {
        lemma_advance(with_report(s, path, o));
    }
    match s.phase {
        Phase::Listing { path } => match e {
            Event::Listed(Ok(entries)) => {
                lemma_advance(
                    with_pending(
                        s,
                        s.pending + stacked(path, entries@),
                    ),
                );
            },
            _ => {},
        },
        _ => {},
    }
}

/// Where errors stop the run, a step that reports a failure finishes the
/// run with that failure.
pub proof fn abort_mode_stops(s: ProcessorView, e: Event, t: ProcessorView, a: Action)
    requires
        s.settings.exit,
        stepped(s, e, t, a),
        s.reports.len() < t.reports.len(),
        t.reports.last().outcome is Failed,
    ensures
        a == Action::Finish(Err(t.reports.last().outcome->Failed_0)),
        t.phase == Phase::Finished(Err(t.reports.last().outcome->Failed_0)),
{
    lemma_advance(s);
    assert forall|f: Failure| #![trigger fail(s, f)] fail(s, f).1 == Action::Finish(Err(f)) && fail(
        s,
        f,
    ).0.phase == Phase::Finished(Err(f)) && fail(s, f).0.reports.last() == (Report {
        path: f.path,
        outcome: Outcome::Failed(f),
    }) by {
        lemma_fail(s, f);
    }
    assert forall|path: String, o: Outcome|
        #![trigger advance(with_report(s, path, o))]
        !(o is Failed) && advance(with_report(s, path, o)).0.reports.len() > s.reports.len() + 1
            ==> advance(with_report(s, path, o)).1 == Action::Finish(
            Err(advance(with_report(s, path, o)).0.reports.last().outcome->Failed_0),
        ) && advance(with_report(s, path, o)).0.phase == Phase::Finished(
            Err(advance(with_report(s, path, o)).0.reports.last().outcome->Failed_0),
        ) by {
        lemma_advance(with_report(s, path, o));
    }
    assert forall|path: String, o: Outcome|
        #![trigger advance(with_report(s, path, o))]
        !(o is Failed) && advance(with_report(s, path, o)).0.reports.len() == s.reports.len() + 1
            ==> !(advance(with_report(s, path, o)).0.reports.last().outcome is Failed) by {
        lemma_advance(with_report(s, path, o));
    }
    match s.phase {
        Phase::Listing { path } => match e {
            Event::Listed(Ok(entries)) => {
                lemma_advance(
                    with_pending(
                        s,
                        s.pending + stacked(path, entries@),
                    ),
                );
            },
            _ => {},
        },
        _ => {},
    }
}

/// Once the run has finished, every step leaves it as it is.
pub proof fn finished_stays(s: ProcessorView, e: Event, t: ProcessorView, a: Action)
    requires
        s.phase is Finished,
        stepped(s, e, t, a),
    ensures
        t == s,
        a == Action::Finish(s.phase->Finished_0),
{
}

/// With overwriting off, a destination file that exists is left alone:
/// the entry is reported skipped, and nothing is moved or copied.
pub proof fn existing_file_kept(
    s: ProcessorView,
    job: Job,
    p: Presence,
    t: ProcessorView,
    a: Action,
)
    requires
        s.phase == Phase::ProbingFile(job),
        p != Presence::Missing,
        !s.settings.force,
        stepped(s, Event::Probed(p), t, a),
    ensures
        s.reports.len() < t.reports.len(),
        t.reports[s.reports.len() as int] == (Report { path: job.path, outcome: Outcome::Skipped(job.file) }),
        !(a is Transfer),
        !(a is CreateDir),
{
    let r = with_report(s, job.path, Outcome::Skipped(job.file));
    lemma_advance(r);
    let t2 = advance(r).0;
    assert(t2.reports[s.reports.len() as int] == r.reports[s.reports.len() as int]) by {
        assert(t2.reports.subrange(0, r.reports.len() as int)[s.reports.len() as int]
            == t2.reports[s.reports.len() as int]);
    }
}

/// With overwriting on, outside a dry run, a destination file that exists
/// is replaced: the file is moved or copied onto it.
pub proof fn existing_file_replaced(
    s: ProcessorView,
    job: Job,
    p: Presence,
    t: ProcessorView,
    a: Action,
)
    requires
        s.phase == Phase::ProbingFile(job),
        p != Presence::Missing,
        s.settings.force,
        !s.settings.dry_run,
        stepped(s, Event::Probed(p), t, a),
    ensures
        a == (Action::Transfer { from: job.path, to: job.file, moving: s.settings.move_files }),
        t.phase == (Phase::Transferring { job, overwrote: true }),
{
}

pub open spec fn live_twin(s: ProcessorView) -> ProcessorView {
    ProcessorView {
        settings: Settings {
            output: s.settings.output,
            series: s.settings.series,
            move_files: s.settings.move_files,
            dry_run: false,
            exit: s.settings.exit,
            force: s.settings.force,
            recursive: s.settings.recursive,
        },
        pending: s.pending,
        phase: s.phase,
        reports: s.reports,
    }
}

/// Where the destination directory is missing, a dry run goes on to probe
/// the destination file at once, in the state that a live run reaches once
/// it has created the directory.
pub proof fn dry_run_skips_creation_like_live(s: ProcessorView, job: Job)
    requires
        s.settings.dry_run,
        s.phase == Phase::ProbingDir(job),
    ensures
        ({
            let (d, da) = step(s, Event::Probed(Presence::Missing));
            let (l1, la1) = step(live_twin(s), Event::Probed(Presence::Missing));
            let (l2, la2) = step(l1, Event::Created(Ok(())));
            &&& la1 == Action::CreateDir(job.dir)
            &&& l2 == live_twin(d)
            &&& la2 == da
        }),
{
}

/// A dry run reports an organised file as a live run does once the move or
/// copy has succeeded, but marked as simulated.
pub proof fn dry_run_reports_like_live(s: ProcessorView, job: Job, overwrote: bool)
    requires
        s.settings.dry_run,
    ensures
        ({
            let (d, _) = transfer(s, job, overwrote);
            let (l1, la1) = transfer(live_twin(s), job, overwrote);
            let (l2, _) = step(l1, Event::Transferred(Ok(())));
            &&& la1 == (Action::Transfer {
                from: job.path,
                to: job.file,
                moving: s.settings.move_files,
            })
            &&& d.reports[s.reports.len() as int] == (Report {
                path: job.path,
                outcome: Outcome::Organised {
                    to: job.file,
                    moved: s.settings.move_files,
                    simulated: true,
                    created: job.created,
                    overwrote,
                },
            })
            &&& l2.reports[s.reports.len() as int] == (Report {
                path: job.path,
                outcome: Outcome::Organised {
                    to: job.file,
                    moved: s.settings.move_files,
                    simulated: false,
                    created: job.created,
                    overwrote,
                },
            })
        }),
{
    let rd = with_report(s, job.path, organised(s.settings, job, true, overwrote));
    lemma_advance(rd);
    let d = advance(rd).0;
    assert(d.reports[s.reports.len() as int] == rd.reports[s.reports.len() as int]) by {
        assert(d.reports.subrange(0, rd.reports.len() as int)[s.reports.len() as int]
            == d.reports[s.reports.len() as int]);
    }
    let l1 = with_phase(live_twin(s), Phase::Transferring { job, overwrote });
    let rl = with_report(l1, job.path, organised(l1.settings, job, false, overwrote));
    lemma_advance(rl);
    let l2 = advance(rl).0;
    assert(l2.reports[s.reports.len() as int] == rl.reports[s.reports.len() as int]) by {
        assert(l2.reports.subrange(0, rl.reports.len() as int)[s.reports.len() as int]
            == l2.reports[s.reports.len() as int]);
    }
}

} // verus!
