//! State tables and their coverage.

use lazily::reactive::{Computed, Context, ThreadSafeContext, ReactiveGraph};
use lazily::state_table::{
    CoverageFailure, FiniteState, StateTable, projected_state_table, table_coverage,
    thread_safe_state_table,
};

#[derive(Clone, Copy, PartialEq, Eq, Debug)]
enum Link {
    Down,
    Up,
}

#[derive(Clone, Copy, PartialEq, Eq, Debug)]
enum Work {
    Idle,
    Pending,
}

impl FiniteState for Link {
    fn all() -> Vec<Self> {
        vec![Link::Down, Link::Up]
    }
}

impl FiniteState for Work {
    fn all() -> Vec<Self> {
        vec![Work::Idle, Work::Pending]
    }
}

#[derive(Clone, Copy, PartialEq, Eq, Debug)]
enum Pumped {
    Park,
    Wait,
    Send,
}

struct Pump;

impl StateTable for Pump {
    type Input = (Link, Work);
    type Decision = Pumped;
    fn decide(&(link, work): &(Link, Work)) -> Pumped {
        match (link, work) {
            (Link::Down, _) => Pumped::Park,
            (Link::Up, Work::Idle) => Pumped::Wait,
            (Link::Up, Work::Pending) => Pumped::Send,
        }
    }
}

#[test]
fn tuple_product_enumerates_every_row_in_stable_order() {
    assert_eq!(
        <(Link, Work)>::all(),
        vec![
            (Link::Down, Work::Idle),
            (Link::Down, Work::Pending),
            (Link::Up, Work::Idle),
            (Link::Up, Work::Pending),
        ]
    );
}

#[test]
fn option_axis_adds_the_absent_inhabitant_first() {
    assert_eq!(
        <Option<Link>>::all(),
        vec![None, Some(Link::Down), Some(Link::Up)]
    );
}

#[test]
fn wider_products_stay_row_major() {
    let rows = <(bool, bool, bool)>::all();
    assert_eq!(rows.len(), 8);
    assert_eq!(rows[0], (false, false, false));
    assert_eq!(rows[1], (false, false, true));
    assert_eq!(rows[7], (true, true, true));
    assert_eq!(<(bool, bool, bool, bool, bool, bool)>::all().len(), 64);
}

#[test]
fn every_width_is_row_major() {
    assert_eq!(<(bool,)>::all(), vec![(false,), (true,)]);
    assert_eq!(<()>::all(), vec![()]);
    let four = <(bool, (), Option<bool>, bool)>::all();
    assert_eq!(four.len(), 12);
    assert_eq!(four[1], (false, (), None, true));
    assert_eq!(four[2], (false, (), Some(false), false));
    assert_eq!(four[6], (true, (), None, false));
    let five = <(bool, bool, bool, bool, bool)>::all();
    assert_eq!(five.len(), 32);
    assert_eq!(five[16], (true, false, false, false, false));
    assert_eq!(five[1], (false, false, false, false, true));
    let six = <(bool, bool, bool, bool, bool, bool)>::all();
    assert_eq!(six[33], (true, false, false, false, false, true));
}

#[test]
fn coverage_enumerates_the_product_and_reaches_every_decision() {
    let coverage = table_coverage::<Pump>();
    assert!(coverage.assert_at_least(4).is_ok());
    assert_eq!(coverage.len(), 4);
    assert!(coverage
        .assert_decisions_exactly(&[Pumped::Park, Pumped::Wait, Pumped::Send])
        .is_ok());
    assert!(!coverage.is_empty());
    assert_eq!(
        coverage.rows(),
        &[
            ((Link::Down, Work::Idle), Pumped::Park),
            ((Link::Down, Work::Pending), Pumped::Park),
            ((Link::Up, Work::Idle), Pumped::Wait),
            ((Link::Up, Work::Pending), Pumped::Send),
        ]
    );
    assert_eq!(
        coverage.decisions(),
        vec![&Pumped::Park, &Pumped::Park, &Pumped::Wait, &Pumped::Send]
    );
}

#[derive(Clone, Copy, PartialEq, Eq, Debug)]
enum Never {
    Reached,
}

struct Dead;

impl StateTable for Dead {
    type Input = (Link, Work);
    type Decision = Option<Never>;
    fn decide(_: &(Link, Work)) -> Option<Never> {
        None
    }
}

#[test]
fn unreached_names_the_dead_alternative() {
    let coverage = table_coverage::<Dead>();
    assert_eq!(
        coverage.unreached_decisions(&[Some(Never::Reached)]).len(),
        1
    );
    assert!(coverage.unreached_decisions(&[None]).is_empty());
}

#[test]
fn assert_at_least_fails_when_the_row_set_shrank() {
    assert!(matches!(
        table_coverage::<Pump>().assert_at_least(5),
        Err(CoverageFailure::TooFewRows {
            examined: 4,
            expected: 5
        })
    ));
}

#[test]
fn a_zero_floor_is_rejected_rather_than_passing_vacuously() {
    assert!(matches!(
        table_coverage::<Pump>().assert_at_least(0),
        Err(CoverageFailure::ZeroFloor)
    ));
}

struct Empty;

#[derive(Clone, Copy, PartialEq, Eq, Debug)]
struct NoRows;

impl FiniteState for NoRows {
    fn all() -> Vec<Self> {
        Vec::new()
    }
}

impl StateTable for Empty {
    type Input = NoRows;
    type Decision = Pumped;
    fn decide(_: &NoRows) -> Pumped {
        Pumped::Park
    }
}

#[test]
fn assertions_fail_on_an_empty_row_set_instead_of_sweeping_nothing() {
    let coverage = table_coverage::<Empty>();
    assert!(matches!(
        coverage.assert_reaches_all(&[Pumped::Park]),
        Err(CoverageFailure::TooFewRows { examined: 0, .. })
    ));
    assert!(matches!(
        coverage.assert_no_row(|_, _| false),
        Err(CoverageFailure::TooFewRows { examined: 0, .. })
    ));
    assert!(matches!(
        coverage.assert_every_row(|_, _| true),
        Err(CoverageFailure::TooFewRows { examined: 0, .. })
    ));
}

struct Stuck;

impl StateTable for Stuck {
    type Input = (Link, Work);
    type Decision = Pumped;
    fn decide(_: &(Link, Work)) -> Pumped {
        Pumped::Park
    }
}

#[test]
fn assert_reaches_all_fails_on_a_dead_decision() {
    assert!(table_coverage::<Pump>()
        .assert_reaches_all(&[Pumped::Park, Pumped::Wait, Pumped::Send])
        .is_ok());
    match table_coverage::<Stuck>().assert_reaches_all(&[Pumped::Park, Pumped::Send]) {
        Err(CoverageFailure::Unreached(missing)) => assert_eq!(missing, vec![&Pumped::Send]),
        _ => panic!("a dead decision must be named"),
    }
    assert!(matches!(
        table_coverage::<Stuck>().assert_reaches_all(&[]),
        Err(CoverageFailure::NothingExpected)
    ));
}

#[test]
fn rows_outside_the_expected_set_are_named() {
    let coverage = table_coverage::<Pump>();
    match coverage.assert_decisions_exactly(&[Pumped::Park, Pumped::Wait]) {
        Err(CoverageFailure::Rows(extra)) => {
            assert_eq!(extra, vec![&((Link::Up, Work::Pending), Pumped::Send)])
        }
        _ => panic!("an extra decision must be named"),
    }
}

// A pump cannot be Down and Pending: the queue drains on disconnect.
#[derive(Clone, Copy, PartialEq, Eq, Debug)]
struct Reachable(Link, Work);

impl Reachable {
    fn new(link: Link, work: Work) -> Option<Self> {
        match (link, work) {
            (Link::Down, Work::Pending) => None,
            _ => Some(Reachable(link, work)),
        }
    }
}

impl FiniteState for Reachable {
    fn all() -> Vec<Self> {
        <(Link, Work)>::all()
            .into_iter()
            .filter_map(|(l, w)| Reachable::new(l, w))
            .collect()
    }
}

struct Constrained;

impl StateTable for Constrained {
    type Input = Reachable;
    type Decision = Pumped;
    fn decide(&Reachable(link, work): &Reachable) -> Pumped {
        Pump::decide(&(link, work))
    }
}

#[test]
fn a_hand_written_finite_state_filters_impossible_rows_out_of_coverage() {
    let coverage = table_coverage::<Constrained>();
    assert_eq!(coverage.len(), 3, "the impossible row must not be decided");
    assert!(coverage
        .assert_decisions_exactly(&[Pumped::Park, Pumped::Wait, Pumped::Send])
        .is_ok());
    assert!(coverage
        .assert_no_row(|i, _| *i == Reachable(Link::Down, Work::Pending))
        .is_ok());
    assert!(coverage
        .assert_every_row(|i, _| *i != Reachable(Link::Down, Work::Pending))
        .is_ok());
    assert_eq!(
        coverage.rows_where(|_, d| *d == Pumped::Wait),
        vec![&(Reachable(Link::Up, Work::Idle), Pumped::Wait)]
    );
}

#[test]
fn wiring_derives_the_decision_and_tracks_both_axes() {
    let mut ctx = Context::new();
    let link_slot = ctx.allocate(Vec::new());
    let work_slot = ctx.allocate(Vec::new());
    let mut link = Link::Down;
    let mut work = Work::Idle;
    let mut decision = projected_state_table::<Pump>(&mut ctx, vec![link_slot, work_slot]);

    assert!(decision.is_stale(&ctx));
    assert_eq!(*decision.get(&mut ctx, (link, work)), Pumped::Park);
    assert!(!decision.is_stale(&ctx));
    work = Work::Pending;
    ctx.clear_slots(&vec![work_slot]);
    assert!(decision.is_stale(&ctx));
    assert_eq!(*decision.get(&mut ctx, (link, work)), Pumped::Park);
    link = Link::Up;
    ctx.clear_slots(&vec![link_slot]);
    assert!(decision.is_stale(&ctx));
    assert_eq!(*decision.get(&mut ctx, (link, work)), Pumped::Send);
    work = Work::Idle;
    ctx.clear_slots(&vec![work_slot]);
    assert_eq!(*decision.get(&mut ctx, (link, work)), Pumped::Wait);
}

#[test]
fn a_table_over_an_input_reader_falls_with_it() {
    let mut ctx = ThreadSafeContext::new();
    let input = Computed::<(Link, Work)>::new(ctx.allocate(Vec::new()));
    let mut decision = thread_safe_state_table::<Pump>(&mut ctx, input);
    assert_eq!(
        *decision.get(&mut ctx, (Link::Up, Work::Idle)),
        Pumped::Wait
    );
    assert!(!decision.is_stale(&ctx));
    ctx.clear_slots(&vec![input.id()]);
    assert!(decision.is_stale(&ctx));
}
