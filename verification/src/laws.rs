//! What holds of every ray cast.
//!
//! A ray cast is described here by what its caller would report: for each
//! candidate cell, in the stepper's order, whether the world holds a block
//! there, what came of the cast against each of its boxes, and what the
//! visitor answered. The laws say what the machine looks up, casts and hands
//! to the visitor when those reports come in.
use vstd::prelude::*;
use crate::hit::{last_impact, overwrite, Hit, Impact};
use crate::traversal::{casts, entries, lookups, run, visits, Action, Event, Traversal};
use crate::vector::Cell;

verus! {

/// What happens at one candidate cell.
pub struct CellRecord {
    /// The cell that the stepper proposes.
    pub cell: Cell,
    /// `None` where the world holds no block in the cell; else the outcome of
    /// the cast against each collision box of the block, in the order of its
    /// box list.
    pub boxes: Option<Seq<Option<Impact>>>,
    /// What the visitor answers to the report for this cell.
    pub keep_going: bool,
}

/// The events of casting against the boxes of one block.
pub open spec fn sweep_events(outcomes: Seq<Option<Impact>>) -> Seq<Event> {
    outcomes.map_values(|outcome: Option<Impact>| Event::Cast(outcome)).push(Event::Swept)
}

/// The events of one candidate cell, from the stepper's proposal to the
/// visitor's answer.
pub open spec fn cell_events(record: CellRecord) -> Seq<Event> {
    match record.boxes {
        None => seq![Event::Entered(record.cell), Event::Vacant, Event::Visited(record.keep_going)],
        Some(outcomes) => seq![Event::Entered(record.cell), Event::Occupied] + sweep_events(
            outcomes,
        ) + seq![Event::Visited(record.keep_going)],
    }
}

/// The events of a whole ray cast whose caller goes through `script` without
/// looking at the machine's answers.
pub open spec fn walk_events(script: Seq<CellRecord>) -> Seq<Event>
    decreases script.len(),
{
    if script.len() == 0 {
        Seq::empty()
    } else {
        cell_events(script[0]) + walk_events(script.skip(1))
    }
}

/// What the visitor is to be told of one cell.
pub open spec fn cell_report(record: CellRecord) -> Hit {
    match record.boxes {
        None => Hit::spec_nothing(record.cell),
        Some(outcomes) => Hit::spec_report(record.cell, last_impact(outcomes)),
    }
}

/// The number of casts made in one cell.
pub open spec fn cell_casts(record: CellRecord) -> nat {
    match record.boxes {
        None => 0,
        Some(outcomes) => outcomes.len(),
    }
}

/// The number of cells of `script` that the ray cast reaches: those up to
/// and including the first at which the visitor answers stop.
pub open spec fn reached(script: Seq<CellRecord>) -> nat
    decreases script.len(),
{
    if script.len() == 0 {
        0
    } else if script[0].keep_going {
        1 + reached(script.skip(1))
    } else {
        1
    }
}

/// The number of casts made in all the cells of `script`.
pub open spec fn total_casts(script: Seq<CellRecord>) -> nat
    decreases script.len(),
{
    if script.len() == 0 {
        0
    } else {
        cell_casts(script[0]) + total_casts(script.skip(1))
    }
}

/// The impact chosen for a cell is that of the last box, in the order of the
/// box list, that the ray hits; no impact is chosen only where every cast
/// missed.
pub proof fn lemma_last_box_wins(outcomes: Seq<Option<Impact>>)
    ensures
        last_impact(outcomes) is None <==> forall|i: int|
            0 <= i < outcomes.len() ==> outcomes[i] is None,
        last_impact(outcomes) is Some ==> exists|i: int|
            0 <= i < outcomes.len() && outcomes[i] == last_impact(outcomes) && forall|j: int|
                i < j < outcomes.len() ==> outcomes[j] is None,
    decreases outcomes.len(),
{
    if outcomes.len() > 0 {
        let later = outcomes.skip(1);
        lemma_last_box_wins(later);
        assert(forall|j: int| 0 <= j < later.len() ==> later[j] == outcomes[j + 1]);
        if last_impact(later) is Some {
            let k = choose|i: int|
                0 <= i < later.len() && later[i] == last_impact(later) && forall|j: int|
                    i < j < later.len() ==> later[j] is None;
            assert(outcomes[k + 1] == last_impact(outcomes));
            assert forall|j: int| k + 1 < j < outcomes.len() implies outcomes[j] is None by {
                assert(later[j - 1] is None);
            }
            assert(outcomes[k + 1] is Some);
        } else {
            assert forall|j: int| 0 < j < outcomes.len() implies outcomes[j] is None by {
                assert(later[j - 1] is None);
            }
            if outcomes[0] is Some {
                assert(outcomes[0] == last_impact(outcomes));
            }
        }
    }
}

/// A run of events can be cut in two: the second part goes on from the state
/// that the first part ends in, and what is looked up, cast and visited adds
/// up.
pub proof fn lemma_run_in_two_parts(start: Traversal, first: Seq<Event>, second: Seq<Event>)
    ensures
        run(start, first + second) == run(run(start, first), second),
        entries(start, first + second) == entries(start, first) + entries(
            run(start, first),
            second,
        ),
        lookups(start, first + second) == lookups(start, first) + lookups(
            run(start, first),
            second,
        ),
        casts(start, first + second) == casts(start, first) + casts(run(start, first), second),
        visits(start, first + second) == visits(start, first) + visits(run(start, first), second),
    decreases first.len(),
{
    let all = first + second;
    if first.len() == 0 {
        assert(all =~= second);
        assert(entries(start, first) + entries(start, second) =~= entries(start, second));
        assert(lookups(start, first) + lookups(start, second) =~= lookups(start, second));
        assert(visits(start, first) + visits(start, second) =~= visits(start, second));
    } else {
        let next = start.spec_step(first[0]);
        assert(all[0] == first[0]);
        assert(all.skip(1) =~= first.skip(1) + second);
        lemma_run_in_two_parts(next, first.skip(1), second);
        let mid = run(next, first.skip(1));
        assert(entries(start, all) =~= entries(start, first) + entries(mid, second));
        assert(lookups(start, all) =~= lookups(start, first) + lookups(mid, second));
        assert(visits(start, all) =~= visits(start, first) + visits(mid, second));
    }
}

/// A ray cast can be repeated: from the same state, the same reports in the
/// same order lead to the same state, the same lookups, the same casts and
/// the same reports to the visitor.
pub proof fn lemma_same_reports_same_cast(start: Traversal, first: Seq<Event>, second: Seq<Event>)
    requires
        first.len() == second.len(),
        forall|i: int| 0 <= i < first.len() ==> first[i] == second[i],
    ensures
        run(start, first) == run(start, second),
        entries(start, first) == entries(start, second),
        lookups(start, first) == lookups(start, second),
        casts(start, first) == casts(start, second),
        visits(start, first) == visits(start, second),
{
    assert(first =~= second);
}

/// Once the ray cast has stopped it stays stopped: whatever is reported
/// afterwards, nothing more is looked up, cast or handed to the visitor.
pub proof fn lemma_stopped_is_final(events: Seq<Event>)
    ensures
        run(Traversal::Stopped, events) == Traversal::Stopped,
        run(Traversal::Stopped, events).spec_pending() == Action::Stop,
        entries(Traversal::Stopped, events) == Seq::<Cell>::empty(),
        lookups(Traversal::Stopped, events) == Seq::<Cell>::empty(),
        casts(Traversal::Stopped, events) == 0,
        visits(Traversal::Stopped, events) == Seq::<Hit>::empty(),
    decreases events.len(),
{
    if events.len() > 0 {
        lemma_stopped_is_final(events.skip(1));
    }
}

/// When the visitor answers stop, the report it was handed is the last one:
/// whatever the caller reports afterwards, no cell is looked up, no box is
/// cast against and no further report is handed out.
pub proof fn lemma_stop_ends_the_cast(hit: Hit, later: Seq<Event>)
    ensures
        (Traversal::Visiting { hit }).spec_step(Event::Visited(false)) == Traversal::Stopped,
        (Traversal::Visiting { hit }).spec_step(Event::Visited(false)).spec_pending()
            == Action::Stop,
        run(Traversal::Visiting { hit }, seq![Event::Visited(false)] + later)
            == Traversal::Stopped,
        lookups(Traversal::Visiting { hit }, seq![Event::Visited(false)] + later) == Seq::<
            Cell,
        >::empty(),
        casts(Traversal::Visiting { hit }, seq![Event::Visited(false)] + later) == 0,
        visits(Traversal::Visiting { hit }, seq![Event::Visited(false)] + later) == seq![hit],
{
    let start = Traversal::Visiting { hit };
    let all = seq![Event::Visited(false)] + later;
    assert(all[0] == Event::Visited(false));
    assert(all.skip(1) =~= later);
    lemma_stopped_is_final(later);
    assert(visits(start, all) =~= seq![hit]);
}

/// Casting against the boxes of a block, one after the other, ends with the
/// report of the last impact: a later impact replaces an earlier one, nearer
/// or not. While the boxes are gone through nothing is looked up or visited,
/// and each box is cast against once.
pub proof fn lemma_sweep_reports_last_impact(
    cell: Cell,
    found: Option<Impact>,
    outcomes: Seq<Option<Impact>>,
)
    ensures
        run(Traversal::Casting { cell, found }, sweep_events(outcomes)) == (Traversal::Visiting {
            hit: Hit::spec_report(cell, overwrite(found, last_impact(outcomes))),
        }),
        lookups(Traversal::Casting { cell, found }, sweep_events(outcomes)) == Seq::<
            Cell,
        >::empty(),
        casts(Traversal::Casting { cell, found }, sweep_events(outcomes)) == outcomes.len(),
        visits(Traversal::Casting { cell, found }, sweep_events(outcomes)) == Seq::<Hit>::empty(),
    decreases outcomes.len(),
{
    let start = Traversal::Casting { cell, found };
    let events = sweep_events(outcomes);
    if outcomes.len() == 0 {
        assert(events[0] == Event::Swept);
        assert(events.skip(1).len() == 0);
        let end = start.spec_step(Event::Swept);
        assert(run(end, events.skip(1)) == end);
        assert(lookups(end, events.skip(1)) == Seq::<Cell>::empty());
        assert(visits(end, events.skip(1)) == Seq::<Hit>::empty());
        assert(casts(end, events.skip(1)) == 0);
    } else {
        assert(events[0] == Event::Cast(outcomes[0]));
        assert(events.skip(1) =~= sweep_events(outcomes.skip(1)));
        lemma_sweep_reports_last_impact(cell, overwrite(found, outcomes[0]), outcomes.skip(1));
    }
}

/// Where every cast against the boxes of a block misses, as it does where
/// they all lie beyond the maximum distance, the cell is reported with the
/// zero normal: no hit.
pub proof fn lemma_all_missed_is_no_hit(cell: Cell, outcomes: Seq<Option<Impact>>)
    requires
        forall|i: int| 0 <= i < outcomes.len() ==> outcomes[i] is None,
    ensures
        run(Traversal::Casting { cell, found: None }, sweep_events(outcomes))
            == (Traversal::Visiting { hit: Hit::spec_nothing(cell) }),
        !Hit::spec_nothing(cell).spec_is_hit(),
{
    lemma_last_box_wins(outcomes);
    lemma_sweep_reports_last_impact(cell, None, outcomes);
}

/// The cell that `state` has taken from the stepper and not yet looked up.
pub open spec fn proposed(state: Traversal) -> Seq<Cell> {
    match state {
        Traversal::Looking { cell } => seq![cell],
        _ => Seq::empty(),
    }
}

/// The cell that `state` has looked up and not yet had the visitor's answer
/// on.
pub open spec fn unanswered(state: Traversal) -> Seq<Cell> {
    match state {
        Traversal::Casting { cell, found } => seq![cell],
        Traversal::Visiting { hit } => seq![hit.cell],
        _ => Seq::empty(),
    }
}

/// The order of the cells is kept from any state on, whatever is reported.
proof fn lemma_order_from(start: Traversal, events: Seq<Event>)
    ensures
        lookups(start, events).is_prefix_of(proposed(start) + entries(start, events)),
        proposed(start).len() + entries(start, events).len() <= lookups(start, events).len() + 1,
        visits(start, events).map_values(|hit: Hit| hit.cell).is_prefix_of(
            unanswered(start) + lookups(start, events),
        ),
        unanswered(start).len() + lookups(start, events).len() <= visits(start, events).len() + 1,
    decreases events.len(),
{
    let cell_of = |hit: Hit| hit.cell;
    if events.len() > 0 {
        let next = start.spec_step(events[0]);
        let rest = events.skip(1);
        lemma_order_from(next, rest);
        let taken = proposed(start) + entries(start, events);
        let taken_next = proposed(next) + entries(next, rest);
        let looked = lookups(start, events);
        let looked_next = lookups(next, rest);
        let owed = unanswered(start) + looked;
        let owed_next = unanswered(next) + looked_next;
        let told = visits(start, events).map_values(cell_of);
        let told_next = visits(next, rest).map_values(cell_of);
        assert(looked_next =~= taken_next.subrange(0, looked_next.len() as int));
        assert(told_next =~= owed_next.subrange(0, told_next.len() as int));
        match (start, events[0]) {
            (Traversal::Stepping, Event::Entered(cell)) => {
                assert(taken =~= taken_next);
                assert(owed =~= owed_next);
                assert(told =~= told_next);
            },
            (Traversal::Looking { cell }, Event::Vacant) => {
                assert(taken =~= seq![cell] + taken_next);
                assert(looked =~= seq![cell] + looked_next);
                assert(looked =~= taken.subrange(0, looked.len() as int));
                assert(owed =~= owed_next);
                assert(told =~= told_next);
            },
            (Traversal::Looking { cell }, Event::Occupied) => {
                assert(taken =~= seq![cell] + taken_next);
                assert(looked =~= seq![cell] + looked_next);
                assert(looked =~= taken.subrange(0, looked.len() as int));
                assert(owed =~= owed_next);
                assert(told =~= told_next);
            },
            (Traversal::Visiting { hit }, Event::Visited(keep_going)) => {
                assert(taken =~= taken_next);
                assert(owed =~= seq![hit.cell] + owed_next);
                assert(visits(start, events) =~= seq![hit] + visits(next, rest));
                assert(told =~= seq![hit.cell] + told_next);
                assert(told =~= owed.subrange(0, told.len() as int));
            },
            _ => {
                assert(taken =~= taken_next);
                assert(owed =~= owed_next);
                assert(told =~= told_next);
            },
        }
    } else {
        assert(lookups(start, events) =~= (proposed(start) + entries(start, events)).subrange(
            0,
            0,
        ));
        assert(visits(start, events).map_values(cell_of) =~= (unanswered(start) + lookups(
            start,
            events,
        )).subrange(0, 0));
    }
}

/// The order of the cells is kept, whatever the caller reports and in
/// whatever order. The cells are looked up in the order in which they were
/// taken from the stepper, none left out and none twice; the reports follow
/// in the same order, one for each cell looked up; and a cell is taken from
/// the stepper only once the one before it has been reported.
pub proof fn lemma_order_is_kept(events: Seq<Event>)
    ensures
        lookups(Traversal::Stepping, events).is_prefix_of(entries(Traversal::Stepping, events)),
        entries(Traversal::Stepping, events).len() <= lookups(Traversal::Stepping, events).len()
            + 1,
        visits(Traversal::Stepping, events).map_values(|hit: Hit| hit.cell).is_prefix_of(
            lookups(Traversal::Stepping, events),
        ),
        lookups(Traversal::Stepping, events).len() <= visits(Traversal::Stepping, events).len()
            + 1,
{
    lemma_order_from(Traversal::Stepping, events);
    assert(proposed(Traversal::Stepping) + entries(Traversal::Stepping, events) =~= entries(
        Traversal::Stepping,
        events,
    ));
    assert(unanswered(Traversal::Stepping) + lookups(Traversal::Stepping, events) =~= lookups(
        Traversal::Stepping,
        events,
    ));
}

/// One cell, from the stepper's proposal to the visitor's answer: the cell
/// is looked up once, each box of its block is cast against once, the
/// visitor gets the report of the last impact, and its answer decides
/// whether the stepper goes on.
pub proof fn lemma_one_cell(record: CellRecord)
    ensures
        run(Traversal::Stepping, cell_events(record)) == if record.keep_going {
            Traversal::Stepping
        } else {
            Traversal::Stopped
        },
        lookups(Traversal::Stepping, cell_events(record)) == seq![record.cell],
        casts(Traversal::Stepping, cell_events(record)) == cell_casts(record),
        visits(Traversal::Stepping, cell_events(record)) == seq![cell_report(record)],
{
    let cell = record.cell;
    let answer = seq![Event::Visited(record.keep_going)];
    let visiting = Traversal::Visiting { hit: cell_report(record) };
    let end = visiting.spec_step(Event::Visited(record.keep_going));
    assert(answer.skip(1).len() == 0);
    assert(run(visiting, answer) == end) by {
        assert(run(end, answer.skip(1)) == end);
    }
    assert(lookups(visiting, answer) == Seq::<Cell>::empty()) by {
        assert(lookups(end, answer.skip(1)) == Seq::<Cell>::empty());
    }
    assert(casts(visiting, answer) == 0) by {
        assert(casts(end, answer.skip(1)) == 0);
    }
    assert(visits(visiting, answer) =~= seq![cell_report(record)]) by {
        assert(visits(end, answer.skip(1)) == Seq::<Hit>::empty());
    }
    match record.boxes {
        None => {
            let head = seq![Event::Entered(cell), Event::Vacant];
            assert(cell_events(record) =~= head + answer);
            let looking = Traversal::Looking { cell };
            assert(head.skip(1) =~= seq![Event::Vacant]);
            assert(head.skip(1).skip(1).len() == 0);
            assert(run(looking, head.skip(1)) == visiting) by {
                assert(run(visiting, head.skip(1).skip(1)) == visiting);
            }
            assert(lookups(looking, head.skip(1)) =~= seq![cell]) by {
                assert(lookups(visiting, head.skip(1).skip(1)) == Seq::<Cell>::empty());
            }
            assert(casts(looking, head.skip(1)) == 0) by {
                assert(casts(visiting, head.skip(1).skip(1)) == 0);
            }
            assert(visits(looking, head.skip(1)) == Seq::<Hit>::empty()) by {
                assert(visits(visiting, head.skip(1).skip(1)) == Seq::<Hit>::empty());
            }
            assert(run(Traversal::Stepping, head) == visiting);
            assert(lookups(Traversal::Stepping, head) =~= seq![cell]);
            assert(casts(Traversal::Stepping, head) == 0);
            assert(visits(Traversal::Stepping, head) == Seq::<Hit>::empty());
            lemma_run_in_two_parts(Traversal::Stepping, head, answer);
            assert(seq![cell] + Seq::<Cell>::empty() =~= seq![cell]);
            assert(Seq::<Hit>::empty() + seq![cell_report(record)] =~= seq![cell_report(record)]);
        },
        Some(outcomes) => {
            let head = seq![Event::Entered(cell), Event::Occupied];
            let sweep = sweep_events(outcomes);
            assert(cell_events(record) =~= head + (sweep + answer));
            let looking = Traversal::Looking { cell };
            let casting = Traversal::Casting { cell, found: None };
            assert(head.skip(1) =~= seq![Event::Occupied]);
            assert(head.skip(1).skip(1).len() == 0);
            assert(run(looking, head.skip(1)) == casting) by {
                assert(run(casting, head.skip(1).skip(1)) == casting);
            }
            assert(lookups(looking, head.skip(1)) =~= seq![cell]) by {
                assert(lookups(casting, head.skip(1).skip(1)) == Seq::<Cell>::empty());
            }
            assert(casts(looking, head.skip(1)) == 0) by {
                assert(casts(casting, head.skip(1).skip(1)) == 0);
            }
            assert(visits(looking, head.skip(1)) == Seq::<Hit>::empty()) by {
                assert(visits(casting, head.skip(1).skip(1)) == Seq::<Hit>::empty());
            }
            assert(run(Traversal::Stepping, head) == casting);
            assert(lookups(Traversal::Stepping, head) =~= seq![cell]);
            assert(casts(Traversal::Stepping, head) == 0);
            assert(visits(Traversal::Stepping, head) == Seq::<Hit>::empty());
            lemma_sweep_reports_last_impact(cell, None, outcomes);
            lemma_run_in_two_parts(casting, sweep, answer);
            lemma_run_in_two_parts(Traversal::Stepping, head, sweep + answer);
            assert(seq![cell] + (Seq::<Cell>::empty() + Seq::<Cell>::empty()) =~= seq![cell]);
            assert(Seq::<Hit>::empty() + (Seq::<Hit>::empty() + seq![cell_report(record)])
                =~= seq![cell_report(record)]);
        },
    }
}

/// The ray cast reaches at least the first cell and at most all of them.
pub proof fn lemma_reached_bounds(script: Seq<CellRecord>)
    ensures
        reached(script) <= script.len(),
        script.len() > 0 ==> reached(script) >= 1,
        reached(script) < script.len() ==> !script[reached(script) - 1].keep_going,
        forall|i: int| 0 <= i < reached(script) - 1 ==> script[i].keep_going,
        (forall|i: int| 0 <= i < script.len() ==> script[i].keep_going) ==> reached(script)
            == script.len(),
    decreases script.len(),
{
    if script.len() > 0 {
        let rest = script.skip(1);
        lemma_reached_bounds(rest);
        assert(forall|i: int| 0 <= i < rest.len() ==> rest[i] == script[i + 1]);
        if script[0].keep_going {
            assert forall|i: int| 0 <= i < reached(script) - 1 implies script[i].keep_going by {
                if i > 0 {
                    assert(rest[i - 1].keep_going);
                }
            }
            if reached(script) < script.len() {
                assert(!rest[reached(rest) - 1].keep_going);
            }
        }
    }
}

/// A whole ray cast. The cells are taken in the stepper's order, each is
/// looked up once and reported once, with the impact of the last box hit or
/// with the zero normal, and the cast ends with the first cell at which the
/// visitor answers stop: no later cell is looked up, cast against or visited.
pub proof fn lemma_walk(script: Seq<CellRecord>)
    ensures
        lookups(Traversal::Stepping, walk_events(script)) == script.take(
            reached(script) as int,
        ).map_values(|record: CellRecord| record.cell),
        visits(Traversal::Stepping, walk_events(script)) == script.take(
            reached(script) as int,
        ).map_values(|record: CellRecord| cell_report(record)),
        casts(Traversal::Stepping, walk_events(script)) == total_casts(
            script.take(reached(script) as int),
        ),
        run(Traversal::Stepping, walk_events(script)) == if reached(script) > 0 && !script[reached(
            script,
        ) - 1].keep_going {
            Traversal::Stopped
        } else {
            Traversal::Stepping
        },
    decreases script.len(),
{
    lemma_reached_bounds(script);
    let n = reached(script) as int;
    if script.len() == 0 {
        assert(script.take(n) =~= Seq::<CellRecord>::empty());
        assert(script.take(n).map_values(|record: CellRecord| record.cell) =~= Seq::<
            Cell,
        >::empty());
        assert(script.take(n).map_values(|record: CellRecord| cell_report(record)) =~= Seq::<
            Hit,
        >::empty());
    } else {
        let first = script[0];
        let rest = script.skip(1);
        lemma_one_cell(first);
        lemma_run_in_two_parts(Traversal::Stepping, cell_events(first), walk_events(rest));
        lemma_reached_bounds(rest);
        let cells = script.take(n).map_values(|record: CellRecord| record.cell);
        let reports = script.take(n).map_values(|record: CellRecord| cell_report(record));
        assert(script.take(n).skip(1) =~= rest.take(n - 1));
        assert(script.take(n)[0] == first);
        if first.keep_going {
            lemma_walk(rest);
            let m = reached(rest) as int;
            assert(n == m + 1);
            assert(cells =~= seq![first.cell] + rest.take(m).map_values(
                |record: CellRecord| record.cell,
            ));
            assert(reports =~= seq![cell_report(first)] + rest.take(m).map_values(
                |record: CellRecord| cell_report(record),
            ));
            assert(total_casts(script.take(n)) == cell_casts(first) + total_casts(rest.take(m)));
            if m > 0 {
                assert(rest[m - 1] == script[n - 1]);
            }
        } else {
            lemma_stopped_is_final(walk_events(rest));
            assert(n == 1);
            assert(rest.take(0) =~= Seq::<CellRecord>::empty());
            assert(cells =~= seq![first.cell] + Seq::<Cell>::empty());
            assert(reports =~= seq![cell_report(first)] + Seq::<Hit>::empty());
            assert(total_casts(rest.take(0)) == 0);
            assert(total_casts(script.take(n)) == cell_casts(first) + total_casts(rest.take(0)));
        }
    }
}

/// A ray that passes only through cells without a block, under a visitor
/// that always answers go on: every cell that the stepper proposes is looked
/// up and reported, in the stepper's order, each with the zero normal; no
/// cast is made; and the stepper is left to go on.
pub proof fn lemma_vacant_cells(cells: Seq<Cell>)
    ensures
        ({
            let script = cells.map_values(
                |cell: Cell| CellRecord { cell, boxes: None, keep_going: true },
            );
            &&& lookups(Traversal::Stepping, walk_events(script)) == cells
            &&& visits(Traversal::Stepping, walk_events(script)) == cells.map_values(
                |cell: Cell| Hit::spec_nothing(cell),
            )
            &&& casts(Traversal::Stepping, walk_events(script)) == 0
            &&& run(Traversal::Stepping, walk_events(script)) == Traversal::Stepping
        }),
        forall|cell: Cell| !(#[trigger] Hit::spec_nothing(cell)).spec_is_hit(),
{
    let script = cells.map_values(|cell: Cell| CellRecord { cell, boxes: None, keep_going: true });
    lemma_walk(script);
    lemma_reached_bounds(script);
    assert(script.take(script.len() as int) =~= script);
    assert(script.map_values(|record: CellRecord| record.cell) =~= cells);
    assert(script.map_values(|record: CellRecord| cell_report(record)) =~= cells.map_values(
        |cell: Cell| Hit::spec_nothing(cell),
    ));
    lemma_no_box_no_cast(script);
}

/// Cells without a block cost no cast.
proof fn lemma_no_box_no_cast(script: Seq<CellRecord>)
    requires
        forall|i: int| 0 <= i < script.len() ==> script[i].boxes is None,
    ensures
        total_casts(script) == 0,
    decreases script.len(),
{
    if script.len() > 0 {
        lemma_no_box_no_cast(script.skip(1));
    }
}

} // verus!
