//! What holds of whole runs of the materializer, whatever the entries.

use crate::creator::{all_known, initial, ActionView, Event, RunState, Stage};
use crate::entities::{DirEntryView, EntryType};
use crate::error::CreateError;
use vstd::prelude::*;

verus! {

/// The state after the events were reported one after another.
pub open spec fn run(s: RunState, events: Seq<Event>) -> RunState
    decreases events.len(),
{
    if events.len() == 0 {
        s
    } else {
        run(s, events.drop_last()).next(events.last())
    }
}

/// The actions requested during a run: the one that was pending when each
/// event was reported, in order.
pub open spec fn requested(s: RunState, events: Seq<Event>) -> Seq<ActionView> {
    Seq::new(events.len(), |k: int| run(s, events.take(k)).action())
}

/// What a file system that never fails reports while one entry is dealt
/// with: that it is there; or that it is missing, and then one success for a
/// directory, two for a file.
pub open spec fn answers_for(entry: DirEntryView, present: bool) -> Seq<Event> {
    if present {
        seq![Event::Exists]
    } else if entry.entry_type == EntryType::Directory {
        seq![Event::Missing, Event::Created]
    } else {
        seq![Event::Missing, Event::Created, Event::Created]
    }
}

/// What has to be asked of the file system for one entry with the given
/// target: a probe; and where nothing is there, the directory with its
/// ancestors, or the file's parent and then the file.
pub open spec fn asked_for(target: Seq<char>, entry: DirEntryView, present: bool) -> Seq<
    ActionView,
> {
    if present {
        seq![ActionView::Probe(target)]
    } else if entry.entry_type == EntryType::Directory {
        seq![ActionView::Probe(target), ActionView::CreateDirAll(target)]
    } else {
        seq![
            ActionView::Probe(target),
            ActionView::EnsureParent(target),
            ActionView::CreateFile(target),
        ]
    }
}

/// The reports of a file system that never fails for the first `n` entries,
/// where `present` says which targets are there already.
pub open spec fn answers(entries: Seq<DirEntryView>, present: Seq<bool>, n: nat) -> Seq<Event>
    decreases n,
{
    if n == 0 {
        Seq::empty()
    } else {
        answers(entries, present, (n - 1) as nat) + answers_for(entries[n - 1], present[n - 1])
    }
}

/// What has to be asked of the file system for the first `n` entries.
pub open spec fn asked(
    out_dir: Seq<char>,
    entries: Seq<DirEntryView>,
    present: Seq<bool>,
    n: nat,
) -> Seq<ActionView>
    decreases n,
{
    if n == 0 {
        Seq::empty()
    } else {
        asked(out_dir, entries, present, (n - 1) as nat) + asked_for(
            out_dir + entries[n - 1].full_path,
            entries[n - 1],
            present[n - 1],
        )
    }
}

/// The state in which `n` entries are dealt with and nothing went wrong.
pub open spec fn done_with(out_dir: Seq<char>, entries: Seq<DirEntryView>, n: nat) -> RunState {
    RunState {
        out_dir,
        entries,
        index: n,
        stage: if n < entries.len() {
            Stage::Probing
        } else {
            Stage::Finished
        },
    }
}

/// Reporting one list of events and then another is reporting the two
/// lists joined.
pub proof fn lemma_run_joined(s: RunState, first: Seq<Event>, second: Seq<Event>)
    ensures
        run(s, first + second) == run(run(s, first), second),
    decreases second.len(),
{
    if second.len() == 0 {
        assert(first + second =~= first);
    } else {
        lemma_run_joined(s, first, second.drop_last());
        assert((first + second).drop_last() =~= first + second.drop_last());
        assert((first + second).last() == second.last());
    }
}

/// The actions requested over two lists of events joined are those of the
/// first list, then those of the second from where the first ended.
pub proof fn lemma_requested_joined(s: RunState, first: Seq<Event>, second: Seq<Event>)
    ensures
        requested(s, first + second) == requested(s, first) + requested(run(s, first), second),
{
    let whole = first + second;
    assert forall|k: int| 0 <= k < whole.len() implies #[trigger] requested(s, whole)[k] == (
    requested(s, first) + requested(run(s, first), second))[k] by {
        if k < first.len() {
            assert(whole.take(k) =~= first.take(k));
        } else {
            assert(whole.take(k) =~= first + second.take(k - first.len()));
            lemma_run_joined(s, first, second.take(k - first.len()));
        }
    }
    assert(requested(s, whole) =~= requested(s, first) + requested(run(s, first), second));
}

/// A well-formed state stays well-formed, whatever is reported.
pub proof fn lemma_next_keeps_wf(s: RunState, event: Event)
    requires
        s.wf(),
    ensures
        s.next(event).wf(),
        s.next(event).out_dir == s.out_dir,
        s.next(event).entries == s.entries,
        s.index <= s.next(event).index <= s.index + 1,
{
}

/// Skip on existence: a target that exists is passed over, whatever the
/// entry's tag and whatever kind of object stands there. The run goes on to
/// the next entry, or ends behind the last, and no creation is requested for
/// the entry.
pub proof fn lemma_existing_target_is_skipped(s: RunState)
    requires
        s.wf(),
        s.stage is Probing,
    ensures
        s.next(Event::Exists) == s.advanced(),
        s.next(Event::Exists).index == s.index + 1,
        s.index + 1 < s.entries.len() ==> s.next(Event::Exists).action() == ActionView::Probe(
            s.out_dir + s.entries[s.index as int + 1].full_path,
        ),
        s.index + 1 == s.entries.len() ==> s.next(Event::Exists).outcome() == Some(
            Ok::<(), CreateError>(()),
        ),
{
}

/// A run that is over stays as it is and requests nothing more.
pub proof fn lemma_stopped_run_stays(s: RunState, events: Seq<Event>)
    requires
        !s.running(),
    ensures
        run(s, events) == s,
        run(s, events).action() == ActionView::Stop,
    decreases events.len(),
{
    if events.len() > 0 {
        lemma_stopped_run_stays(s, events.drop_last());
    }
}

/// Fail fast: the first error that the file system reports ends the run
/// with that very error, and nothing is requested after it, whatever is
/// reported later.
pub proof fn lemma_first_failure_ends_run(s: RunState, e: std::io::Error, later: Seq<Event>)
    requires
        s.running(),
    ensures
        run(s.next(Event::Failed(e)), later).outcome() == Some(
            Err::<(), CreateError>(CreateError::Io(e)),
        ),
        run(s.next(Event::Failed(e)), later).index == s.index,
        forall|k: int|
            0 <= k < later.len() ==> #[trigger] requested(s.next(Event::Failed(e)), later)[k]
                == ActionView::Stop,
{
    let stopped = s.next(Event::Failed(e));
    lemma_stopped_run_stays(stopped, later);
    assert forall|k: int| 0 <= k < later.len() implies #[trigger] requested(stopped, later)[k]
        == ActionView::Stop by {
        lemma_stopped_run_stays(stopped, later.take(k));
    }
}

/// One entry of a run that meets no failure: from probing entry `n`, the
/// reports for that entry lead to the next entry, and exactly the actions
/// for that entry are requested.
pub proof fn lemma_one_entry(
    out_dir: Seq<char>,
    entries: Seq<DirEntryView>,
    n: nat,
    present: bool,
)
    requires
        n < entries.len(),
        entries[n as int].entry_type != EntryType::Unknown,
    ensures
        run(done_with(out_dir, entries, n), answers_for(entries[n as int], present)) == done_with(
            out_dir,
            entries,
            n + 1,
        ),
        requested(done_with(out_dir, entries, n), answers_for(entries[n as int], present))
            == asked_for(out_dir + entries[n as int].full_path, entries[n as int], present),
{
    let s = done_with(out_dir, entries, n);
    let ev = answers_for(entries[n as int], present);
    let target = out_dir + entries[n as int].full_path;
    reveal_with_fuel(run, 4);
    assert(ev.take(0) =~= Seq::<Event>::empty());
    assert(run(s, ev.take(0)) == s);
    if present {
        assert(ev.drop_last() =~= Seq::<Event>::empty());
    } else if entries[n as int].entry_type == EntryType::Directory {
        assert(ev.drop_last() =~= seq![Event::Missing]);
        assert(ev.drop_last().drop_last() =~= Seq::<Event>::empty());
        assert(ev.take(1) =~= seq![Event::Missing]);
    } else {
        assert(ev.drop_last() =~= seq![Event::Missing, Event::Created]);
        assert(ev.drop_last().drop_last() =~= seq![Event::Missing]);
        assert(ev.drop_last().drop_last().drop_last() =~= Seq::<Event>::empty());
        assert(ev.take(1) =~= seq![Event::Missing]);
        assert(ev.take(2) =~= seq![Event::Missing, Event::Created]);
    }
    assert(requested(s, ev) =~= asked_for(target, entries[n as int], present));
}

/// Every entry is dealt with: on a file system that never fails, the run
/// over the first `n` entries requests for each of them, in order, exactly
/// what that entry needs, and then stands at entry `n`, or has ended well
/// behind the last. No entry is left out, and none is created twice.
pub proof fn lemma_run_without_failure(
    out_dir: Seq<char>,
    entries: Seq<DirEntryView>,
    present: Seq<bool>,
    n: nat,
)
    requires
        all_known(entries),
        present.len() == entries.len(),
        n <= entries.len(),
    ensures
        run(initial(out_dir, entries), answers(entries, present, n)) == done_with(
            out_dir,
            entries,
            n,
        ),
        requested(initial(out_dir, entries), answers(entries, present, n)) == asked(
            out_dir,
            entries,
            present,
            n,
        ),
        n == entries.len() ==> run(
            initial(out_dir, entries),
            answers(entries, present, n),
        ).outcome() == Some(Ok::<(), CreateError>(())),
    decreases n,
{
    let start = initial(out_dir, entries);
    assert(start == done_with(out_dir, entries, 0));
    if n == 0 {
        assert(requested(start, answers(entries, present, n)) =~= asked(
            out_dir,
            entries,
            present,
            n,
        ));
    } else {
        let m = (n - 1) as nat;
        let before = answers(entries, present, m);
        let here = answers_for(entries[m as int], present[m as int]);
        lemma_run_without_failure(out_dir, entries, present, m);
        lemma_one_entry(out_dir, entries, m, present[m as int]);
        lemma_run_joined(start, before, here);
        lemma_requested_joined(start, before, here);
    }
}

/// A second run changes nothing: where every target is there already, as
/// after a run that ended well, each entry is probed once, nothing is
/// created, and the run ends without an error.
pub proof fn lemma_rerun_only_probes(out_dir: Seq<char>, entries: Seq<DirEntryView>)
    requires
        all_known(entries),
    ensures
        ({
            let present = Seq::new(entries.len(), |i: int| true);
            let events = answers(entries, present, entries.len());
            &&& events == Seq::new(entries.len(), |i: int| Event::Exists)
            &&& requested(initial(out_dir, entries), events) == Seq::new(
                entries.len(),
                |i: int| ActionView::Probe(out_dir + entries[i].full_path),
            )
            &&& run(initial(out_dir, entries), events).outcome() == Some(Ok::<(), CreateError>(()))
        }),
{
    let present = Seq::new(entries.len(), |i: int| true);
    lemma_run_without_failure(out_dir, entries, present, entries.len());
    lemma_all_present(out_dir, entries, present, entries.len());
    assert(Seq::new(entries.len(), |i: int| Event::Exists).take(entries.len() as int) =~= Seq::new(
        entries.len(),
        |i: int| Event::Exists,
    ));
    assert(Seq::new(
        entries.len(),
        |i: int| ActionView::Probe(out_dir + entries[i].full_path),
    ).take(entries.len() as int) =~= Seq::new(
        entries.len(),
        |i: int| ActionView::Probe(out_dir + entries[i].full_path),
    ));
}

/// Where every target is there, the reports are `Exists` throughout and the
/// requests are one probe per entry.
proof fn lemma_all_present(
    out_dir: Seq<char>,
    entries: Seq<DirEntryView>,
    present: Seq<bool>,
    n: nat,
)
    requires
        present.len() == entries.len(),
        n <= entries.len(),
        forall|i: int| 0 <= i < present.len() ==> present[i],
    ensures
        answers(entries, present, n) == Seq::new(entries.len(), |i: int| Event::Exists).take(
            n as int,
        ),
        asked(out_dir, entries, present, n) == Seq::new(
            entries.len(),
            |i: int| ActionView::Probe(out_dir + entries[i].full_path),
        ).take(n as int),
    decreases n,
{
    let all_events = Seq::new(entries.len(), |i: int| Event::Exists);
    let all_probes = Seq::new(
        entries.len(),
        |i: int| ActionView::Probe(out_dir + entries[i].full_path),
    );
    if n == 0 {
        assert(answers(entries, present, n) =~= all_events.take(0));
        assert(asked(out_dir, entries, present, n) =~= all_probes.take(0));
    } else {
        lemma_all_present(out_dir, entries, present, (n - 1) as nat);
        assert(all_events.take(n as int) =~= all_events.take(n - 1) + seq![Event::Exists]);
        assert(all_probes.take(n as int) =~= all_probes.take(n - 1) + seq![
            ActionView::Probe(out_dir + entries[n - 1].full_path),
        ]);
    }
}

/// How many events a run can still take in at most: three for every entry
/// that is not dealt with, less what the current entry has behind it.
pub open spec fn steps_left(s: RunState) -> int {
    match s.stage {
        Stage::Probing => 3 * (s.entries.len() - s.index),
        Stage::EnsuringParent => 3 * (s.entries.len() - s.index) - 1,
        Stage::CreatingDir => 3 * (s.entries.len() - s.index) - 2,
        Stage::CreatingFile => 3 * (s.entries.len() - s.index) - 2,
        Stage::Finished => 0,
        Stage::Aborted(_) => 0,
    }
}

/// Every event brings a running state nearer to its end.
pub proof fn lemma_step_gets_nearer(s: RunState, event: Event)
    requires
        s.wf(),
        s.running(),
    ensures
        0 <= steps_left(s.next(event)) < steps_left(s),
{
}

/// Every run stops: after three events for each entry, at the latest, it
/// has finished or was given up, whatever was reported.
pub proof fn lemma_run_stops(out_dir: Seq<char>, entries: Seq<DirEntryView>, events: Seq<Event>)
    ensures
        run(initial(out_dir, entries), events).wf(),
        steps_left(run(initial(out_dir, entries), events)) >= 0,
        run(initial(out_dir, entries), events).running() ==> steps_left(
            run(initial(out_dir, entries), events),
        ) <= 3 * entries.len() - events.len(),
        events.len() >= 3 * entries.len() ==> !run(initial(out_dir, entries), events).running(),
    decreases events.len(),
{
    if events.len() > 0 {
        lemma_run_stops(out_dir, entries, events.drop_last());
        let before = run(initial(out_dir, entries), events.drop_last());
        lemma_next_keeps_wf(before, events.last());
        if before.running() {
            lemma_step_gets_nearer(before, events.last());
        }
    }
}

/// The paths at which something exists: all that the materializer ever
/// learns of a file system.
pub type Disk = Set<Seq<char>>;

/// What a file system owes the materializer when it performs `action` on
/// `before`, reports `event` and leaves `after`. A probe changes nothing and
/// tells the truth. A creation either succeeds or fails; nothing that was
/// there goes away, and after a success the path itself is there. What else
/// a creation brings about, such as the ancestors of a directory, is left
/// open. Nothing is performed once the run has stopped.
pub open spec fn obeys(before: Disk, action: ActionView, event: Event, after: Disk) -> bool {
    match action {
        ActionView::Probe(path) => {
            &&& after == before
            &&& (event is Exists || event is Missing)
            &&& event is Exists <==> before.contains(path)
        },
        ActionView::CreateDirAll(path) | ActionView::CreateFile(path) => {
            &&& before.subset_of(after)
            &&& (event is Created || event is Failed)
            &&& event is Created ==> after.contains(path)
        },
        ActionView::EnsureParent(_) => {
            &&& before.subset_of(after)
            &&& (event is Created || event is Failed)
        },
        ActionView::Stop => false,
    }
}

/// The file system as it stood when the event of index `k` was still to
/// come: `start` at first, and then what the event before left.
pub open spec fn disk_before(start: Disk, disks: Seq<Disk>, k: int) -> Disk {
    if k <= 0 {
        start
    } else {
        disks[k - 1]
    }
}

/// Whether `events` and `disks` record a run from state `s` on a file
/// system that began as `start` and did throughout what it owes: each event
/// answers the action that was pending, and `disks` holds what each left.
pub open spec fn faithful(s: RunState, start: Disk, events: Seq<Event>, disks: Seq<Disk>) -> bool {
    &&& disks.len() == events.len()
    &&& forall|k: int|
        0 <= k < events.len() ==> obeys(
            disk_before(start, disks, k),
            run(s, events.take(k)).action(),
            #[trigger] events[k],
            disks[k],
        )
}

/// Whatever the first `n` entries stand for is there.
pub open spec fn targets_exist(
    disk: Disk,
    out_dir: Seq<char>,
    entries: Seq<DirEntryView>,
    n: nat,
) -> bool {
    forall|i: int| 0 <= i < n && i < entries.len() ==> disk.contains(out_dir + (#[trigger] entries[i]).full_path)
}

/// During a faithful run nothing goes away, and as long as nothing failed,
/// every entry that is dealt with is there.
pub proof fn lemma_dealt_with_is_there(
    out_dir: Seq<char>,
    entries: Seq<DirEntryView>,
    start: Disk,
    events: Seq<Event>,
    disks: Seq<Disk>,
    k: nat,
)
    requires
        faithful(initial(out_dir, entries), start, events, disks),
        k <= events.len(),
    ensures
        ({
            let s = run(initial(out_dir, entries), events.take(k as int));
            let disk = disk_before(start, disks, k as int);
            &&& s.wf()
            &&& s.out_dir == out_dir
            &&& s.entries == entries
            &&& start.subset_of(disk)
            &&& s.stage is Finished ==> s.index == entries.len()
            &&& !(s.stage is Aborted) ==> targets_exist(disk, out_dir, entries, s.index)
        }),
    decreases k,
{
    let first = initial(out_dir, entries);
    if k == 0 {
        assert(events.take(0) =~= Seq::<Event>::empty());
    } else {
        let j = (k - 1) as nat;
        lemma_dealt_with_is_there(out_dir, entries, start, events, disks, j);
        let before = run(first, events.take(j as int));
        assert(events.take(k as int).drop_last() =~= events.take(j as int));
        assert(events.take(k as int).last() == events[j as int]);
        assert(run(first, events.take(k as int)) == before.next(events[j as int]));
        assert(obeys(
            disk_before(start, disks, j as int),
            before.action(),
            events[j as int],
            disks[j as int],
        ));
    }
}

/// After a faithful run that ended well, whatever the entries stand for is
/// there, and nothing that was there before is gone.
pub proof fn lemma_good_run_leaves_all_targets(
    out_dir: Seq<char>,
    entries: Seq<DirEntryView>,
    start: Disk,
    events: Seq<Event>,
    disks: Seq<Disk>,
)
    requires
        faithful(initial(out_dir, entries), start, events, disks),
        run(initial(out_dir, entries), events).outcome() == Some(Ok::<(), CreateError>(())),
    ensures
        targets_exist(
            disk_before(start, disks, events.len() as int),
            out_dir,
            entries,
            entries.len(),
        ),
        start.subset_of(disk_before(start, disks, events.len() as int)),
{
    lemma_dealt_with_is_there(out_dir, entries, start, events, disks, events.len());
    assert(events.take(events.len() as int) =~= events);
}

/// One step on a file system where every target is there: the pending
/// action is a probe, the answer is that the target exists, nothing changes,
/// and the run goes on to the next entry.
pub proof fn lemma_step_on_complete_disk(
    out_dir: Seq<char>,
    entries: Seq<DirEntryView>,
    disk: Disk,
    n: nat,
    event: Event,
    after: Disk,
)
    requires
        targets_exist(disk, out_dir, entries, entries.len()),
        n <= entries.len(),
        obeys(disk, done_with(out_dir, entries, n).action(), event, after),
    ensures
        n < entries.len(),
        event is Exists,
        after == disk,
        done_with(out_dir, entries, n).action() == ActionView::Probe(
            out_dir + entries[n as int].full_path,
        ),
        done_with(out_dir, entries, n).next(event) == done_with(out_dir, entries, n + 1),
{
    assert(n < entries.len());
    assert(disk.contains(out_dir + entries[n as int].full_path));
}

/// On a file system where every target is there, a faithful run probes
/// one entry after the other, is told each time that it exists, and changes
/// nothing.
pub proof fn lemma_run_on_complete_disk(
    out_dir: Seq<char>,
    entries: Seq<DirEntryView>,
    start: Disk,
    events: Seq<Event>,
    disks: Seq<Disk>,
    k: nat,
)
    requires
        targets_exist(start, out_dir, entries, entries.len()),
        faithful(initial(out_dir, entries), start, events, disks),
        k <= events.len(),
    ensures
        k <= entries.len(),
        run(initial(out_dir, entries), events.take(k as int)) == done_with(out_dir, entries, k),
        disk_before(start, disks, k as int) == start,
        k > 0 ==> events[k - 1] is Exists,
    decreases k,
{
    let first = initial(out_dir, entries);
    if k == 0 {
        assert(events.take(0) =~= Seq::<Event>::empty());
        assert(first == done_with(out_dir, entries, 0));
    } else {
        let j = (k - 1) as nat;
        lemma_run_on_complete_disk(out_dir, entries, start, events, disks, j);
        let before = run(first, events.take(j as int));
        let event = events[j as int];
        assert(obeys(disk_before(start, disks, j as int), before.action(), event, disks[j as int]));
        lemma_step_on_complete_disk(out_dir, entries, start, j, event, disks[j as int]);
        assert(events.take(k as int).drop_last() =~= events.take(j as int));
        assert(events.take(k as int).last() == event);
        assert(run(first, events.take(k as int)) == before.next(event));
    }
}

/// Idempotence: after a run that ended well, a second run over the same
/// entries on the file system as the first left it creates nothing and
/// meets no error. Each entry is probed and found, the file system stays as
/// it was, and once every entry is probed the run has ended well.
pub proof fn lemma_second_run_changes_nothing(
    out_dir: Seq<char>,
    entries: Seq<DirEntryView>,
    start: Disk,
    first_events: Seq<Event>,
    first_disks: Seq<Disk>,
    second_events: Seq<Event>,
    second_disks: Seq<Disk>,
)
    requires
        faithful(initial(out_dir, entries), start, first_events, first_disks),
        run(initial(out_dir, entries), first_events).outcome() == Some(
            Ok::<(), CreateError>(()),
        ),
        faithful(
            initial(out_dir, entries),
            disk_before(start, first_disks, first_events.len() as int),
            second_events,
            second_disks,
        ),
    ensures
        second_events.len() <= entries.len(),
        forall|k: int|
            0 <= k < second_events.len() ==> {
                &&& #[trigger] second_events[k] is Exists
                &&& second_disks[k] == disk_before(start, first_disks, first_events.len() as int)
                &&& requested(initial(out_dir, entries), second_events)[k] == ActionView::Probe(
                    out_dir + entries[k].full_path,
                )
            },
        !(run(initial(out_dir, entries), second_events).stage is Aborted),
        second_events.len() == entries.len() ==> run(
            initial(out_dir, entries),
            second_events,
        ).outcome() == Some(Ok::<(), CreateError>(())),
{
    let first = initial(out_dir, entries);
    let left = disk_before(start, first_disks, first_events.len() as int);
    lemma_good_run_leaves_all_targets(out_dir, entries, start, first_events, first_disks);
    lemma_run_on_complete_disk(
        out_dir,
        entries,
        left,
        second_events,
        second_disks,
        second_events.len(),
    );
    assert(second_events.take(second_events.len() as int) =~= second_events);
    assert forall|k: int| 0 <= k < second_events.len() implies {
        &&& #[trigger] second_events[k] is Exists
        &&& second_disks[k] == left
        &&& requested(first, second_events)[k] == ActionView::Probe(out_dir + entries[k].full_path)
    } by {
        lemma_run_on_complete_disk(out_dir, entries, left, second_events, second_disks, k as nat);
        lemma_run_on_complete_disk(
            out_dir,
            entries,
            left,
            second_events,
            second_disks,
            (k + 1) as nat,
        );
    }
}

} // verus!
