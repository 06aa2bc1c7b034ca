//! The meeting: a roster of attendees by category, and a timer.

use crate::clock::{
    duration_nanos, elapsed_since, max_nanos, now, saturating_nanos, saturating_sum, whole_millis,
    zero,
};
use crate::model::EmployeeCategory;
use std::time::{Duration, Instant};
use vstd::prelude::*;

verus! {

/// The attendees of one category: the salary that was current when the first
/// of them joined, and how many they are.
pub struct Aggregate {
    pub salary: u64,
    pub count: u32,
}

/// A roster maps the title of each category that is present to its aggregate.
pub type Roster = Map<Seq<char>, Aggregate>;

/// Finitely many categories are present, and none with a count of zero.
pub open spec fn roster_wf(roster: Roster) -> bool {
    &&& roster.dom().finite()
    &&& forall|title: Seq<char>| roster.contains_key(title) ==> (#[trigger] roster[title]).count > 0
}

/// The roster after `count` attendees of a category have joined.
///
/// Nobody joining changes nothing, and neither do more than the counter of
/// the category has room for.  A category that is present keeps the salary
/// it was first seen with; a new one takes the salary given.
pub open spec fn roster_add(roster: Roster, title: Seq<char>, salary: u64, count: u32) -> Roster {
    if count == 0 || !roster_has_room(roster, title, count) {
        roster
    } else if roster.contains_key(title) {
        roster.insert(
            title,
            Aggregate {
                salary: roster[title].salary,
                count: (roster[title].count + count) as u32,
            },
        )
    } else {
        roster.insert(title, Aggregate { salary, count })
    }
}

/// The roster after `count` attendees of a category have left.
///
/// A category that is not present stays absent.  Taking away as many as are
/// present, or more, removes the category; fewer leaves the remainder.
pub open spec fn roster_remove(roster: Roster, title: Seq<char>, count: u32) -> Roster {
    if !roster.contains_key(title) {
        roster
    } else if count >= roster[title].count {
        roster.remove(title)
    } else {
        roster.insert(
            title,
            Aggregate {
                salary: roster[title].salary,
                count: (roster[title].count - count) as u32,
            },
        )
    }
}

/// Whether `count` more attendees of a category fit in its counter.
pub open spec fn roster_has_room(roster: Roster, title: Seq<char>, count: u32) -> bool {
    roster.contains_key(title) ==> roster[title].count + count <= u32::MAX
}

/// One entry of the roster as the meeting stores it.
#[derive(Debug, Clone)]
struct Attendee {
    title: String,
    salary: u64,
    count: u32,
}

impl Attendee {
    /// An entry for `count` attendees of the category `title`.
    fn new(title: String, salary: u64, count: u32) -> (entry: Self)
        ensures
            entry.key() == title@,
            entry.aggregate() == (Aggregate { salary, count }),
    {
        Self { title, salary, count }
    }

    /// The aggregate that the entry stands for.
    spec fn aggregate(&self) -> Aggregate {
        Aggregate { salary: self.salary, count: self.count }
    }

    /// The title that the entry is filed under.
    spec fn key(&self) -> Seq<char> {
        self.title@
    }
}

/// Whether some entry is filed under `title`.
spec fn holds(entries: Seq<Attendee>, title: Seq<char>) -> bool {
    exists|i: int| 0 <= i < entries.len() && (#[trigger] entries[i]).key() == title
}

/// The place of an entry filed under `title`.
spec fn slot(entries: Seq<Attendee>, title: Seq<char>) -> int {
    choose|i: int| 0 <= i < entries.len() && (#[trigger] entries[i]).key() == title
}

/// No two entries are filed under the same title.
spec fn distinct(entries: Seq<Attendee>) -> bool {
    forall|i: int, j: int|
        0 <= i < j < entries.len() ==> (#[trigger] entries[i]).key() != (#[trigger] entries[j]).key()
}

/// The roster that a list of entries stands for.
spec fn roster_of(entries: Seq<Attendee>) -> Roster {
    Map::new(
        |title: Seq<char>| holds(entries, title),
        |title: Seq<char>| entries[slot(entries, title)].aggregate(),
    )
}

/// An entry of a list without repeated titles is what the roster holds under
/// its title.
proof fn lemma_entry_in_roster(entries: Seq<Attendee>, i: int)
    requires
        distinct(entries),
        0 <= i < entries.len(),
    ensures
        roster_of(entries).contains_key(entries[i].key()),
        roster_of(entries)[entries[i].key()] == entries[i].aggregate(),
{
    let title = entries[i].key();
    assert(holds(entries, title));
    let k = slot(entries, title);
    assert(0 <= k < entries.len() && entries[k].key() == title);
    if k < i {
        assert(entries[k].key() != entries[i].key());
    } else if i < k {
        assert(entries[i].key() != entries[k].key());
    }
}

/// What is in the roster is filed in some entry.
proof fn lemma_roster_has_entry(entries: Seq<Attendee>, title: Seq<char>)
    requires
        roster_of(entries).contains_key(title),
    ensures
        0 <= slot(entries, title) < entries.len(),
        entries[slot(entries, title)].key() == title,
        roster_of(entries)[title] == entries[slot(entries, title)].aggregate(),
{
    assert(holds(entries, title));
}

/// Whether a listed triple of title, salary and count is an entry of the roster.
pub open spec fn listed(item: (String, u64, u32), roster: Roster) -> bool {
    roster.contains_key(item.0@) && roster[item.0@] == (Aggregate { salary: item.1, count: item.2 })
}

/// Whether a list holds exactly the entries of a roster, each of them once.
pub open spec fn lists_roster(list: Seq<(String, u64, u32)>, roster: Roster) -> bool {
    &&& forall|i: int| 0 <= i < list.len() ==> listed(#[trigger] list[i], roster)
    &&& forall|i: int, j: int|
        0 <= i < j < list.len() ==> (#[trigger] list[i]).0@ != (#[trigger] list[j]).0@
    &&& forall|title: Seq<char>| #[trigger]
        roster.contains_key(title) ==> exists|i: int|
            0 <= i < list.len() && (#[trigger] list[i]).0@ == title
}

/// What a meeting holds: the roster, the time accumulated over finished runs
/// in nanoseconds, whether it is running, and the clock reading at which the
/// current run began.
pub struct MeetingView {
    pub roster: Roster,
    pub elapsed: nat,
    pub running: bool,
    pub since: Option<Instant>,
}

/// The state of a meeting that has just been created.
pub open spec fn initial_view() -> MeetingView {
    MeetingView { roster: Map::empty(), elapsed: 0, running: false, since: None }
}

/// The time a meeting has been active once its current run has lasted
/// `run` nanoseconds: the accumulated time, plus the run while it is running.
pub open spec fn active_nanos(view: MeetingView, run: nat) -> nat {
    if view.running {
        saturating_nanos(view.elapsed, run)
    } else {
        view.elapsed
    }
}

/// The state of a meeting after it has been stopped, its current run having
/// lasted `run` nanoseconds.
pub open spec fn stopped_view(view: MeetingView, run: nat) -> MeetingView {
    if view.running {
        MeetingView {
            roster: view.roster,
            elapsed: saturating_nanos(view.elapsed, run),
            running: false,
            since: None,
        }
    } else {
        view
    }
}

/// A meeting with its attendees and its timer.
#[derive(Debug)]
pub struct Meeting {
    attendees: Vec<Attendee>,
    start_time: Option<Instant>,
    elapsed: Duration,
    running: bool,
}

impl View for Meeting {
    type V = MeetingView;

    closed spec fn view(&self) -> MeetingView {
        MeetingView {
            roster: roster_of(self.attendees@),
            elapsed: duration_nanos(self.elapsed),
            running: self.running,
            since: self.start_time,
        }
    }
}

/// What the attendees of one category earn together in a work year.
pub open spec fn aggregate_pay(aggregate: Aggregate) -> nat {
    aggregate.salary as nat * aggregate.count as nat
}

/// What all attendees of a roster earn together in a work year: the sum, over
/// the categories that are present, of salary times count.
pub open spec fn roster_pay(roster: Roster) -> nat
    decreases roster.dom().len(),
    when roster.dom().finite()
{
    if roster.dom().len() == 0 {
        0
    } else {
        let title = roster.dom().choose();
        aggregate_pay(roster[title]) + roster_pay(roster.remove(title))
    }
}

/// The cost of a meeting, its current run having lasted `run` nanoseconds, as
/// a numerator over `MILLIS_PER_WORK_YEAR`: what the roster earns in a work
/// year, times the whole milliseconds the meeting has been active.
pub open spec fn cost_numerator(view: MeetingView, run: nat) -> nat {
    roster_pay(view.roster) * (active_nanos(view, run) / 1_000_000)
}

/// What the first `n` entries earn together in a work year.
spec fn entries_pay(entries: Seq<Attendee>, n: int) -> nat
    decreases n,
{
    if n <= 0 {
        0
    } else {
        entries_pay(entries, n - 1) + aggregate_pay(entries[n - 1].aggregate())
    }
}

/// The pay of a roster is the pay of any one of its categories plus the pay
/// of the roster without that category.
pub proof fn lemma_roster_pay_remove(roster: Roster, title: Seq<char>)
    requires
        roster.dom().finite(),
        roster.contains_key(title),
    ensures
        roster_pay(roster) == aggregate_pay(roster[title]) + roster_pay(roster.remove(title)),
    decreases roster.dom().len(),
{
    let chosen = roster.dom().choose();
    if chosen != title {
        lemma_roster_pay_remove(roster.remove(chosen), title);
        lemma_roster_pay_remove(roster.remove(title), chosen);
        assert(roster.remove(chosen).remove(title) =~= roster.remove(title).remove(chosen));
    }
}

/// A list of entries stands for a roster of finitely many categories.
proof fn lemma_roster_finite(entries: Seq<Attendee>)
    ensures
        roster_of(entries).dom().finite(),
    decreases entries.len(),
{
    if entries.len() == 0 {
        assert(roster_of(entries).dom() =~= Set::empty());
    } else {
        let front = entries.drop_last();
        lemma_roster_finite(front);
        assert(roster_of(entries).dom() =~= roster_of(front).dom().insert(entries.last().key())) by {
            assert forall|title: Seq<char>|
                holds(entries, title) <==> holds(front, title) || title
                    == entries.last().key() by {
                if holds(entries, title) {
                    let k = slot(entries, title);
                    if k < front.len() {
                        assert(front[k].key() == title);
                    }
                }
                if holds(front, title) {
                    let k = slot(front, title);
                    assert(entries[k].key() == title);
                }
                if title == entries.last().key() {
                    assert(entries[entries.len() - 1].key() == title);
                }
            }
        }
    }
}

/// The entries of a list without repeated titles earn what their roster
/// earns.
proof fn lemma_entries_pay(entries: Seq<Attendee>)
    requires
        distinct(entries),
    ensures
        entries_pay(entries, entries.len() as int) == roster_pay(roster_of(entries)),
        roster_of(entries).dom().finite(),
    decreases entries.len(),
{
    lemma_roster_finite(entries);
    if entries.len() == 0 {
        assert(roster_of(entries).dom() =~= Set::empty());
    } else {
        let front = entries.drop_last();
        let last = entries.last();
        assert(distinct(front)) by {
            assert forall|a: int, b: int| 0 <= a < b < front.len() implies (#[trigger] front[a]).key()
                != (#[trigger] front[b]).key() by {
                assert(entries[a].key() != entries[b].key());
            }
        }
        lemma_entries_pay(front);
        lemma_entry_in_roster(entries, entries.len() - 1);
        assert(roster_of(entries).remove(last.key()) =~= roster_of(front)) by {
            assert forall|title: Seq<char>| #[trigger]
                roster_of(front).contains_key(title) implies roster_of(entries).contains_key(title)
                && title != last.key() && roster_of(entries)[title] == roster_of(front)[title] by {
                lemma_roster_has_entry(front, title);
                let k = slot(front, title);
                assert(entries[k] == front[k]);
                lemma_entry_in_roster(entries, k);
                assert(entries[k].key() != entries[entries.len() - 1].key());
            }
            assert forall|title: Seq<char>| #[trigger]
                roster_of(entries).contains_key(title) && title
                    != last.key() implies roster_of(front).contains_key(title) by {
                lemma_roster_has_entry(entries, title);
                let k = slot(entries, title);
                assert(front[k] == entries[k]);
                lemma_entry_in_roster(front, k);
            }
        }
        lemma_roster_pay_remove(roster_of(entries), last.key());
        lemma_entries_pay_same(entries, front, front.len() as int);
    }
}

/// What the first entries earn depends on those entries alone.
proof fn lemma_entries_pay_same(one: Seq<Attendee>, other: Seq<Attendee>, n: int)
    requires
        n <= one.len(),
        n <= other.len(),
        forall|i: int| 0 <= i < n ==> one[i] == other[i],
    ensures
        entries_pay(one, n) == entries_pay(other, n),
    decreases n,
{
    if n > 0 {
        lemma_entries_pay_same(one, other, n - 1);
    }
}

/// More entries never earn less.
proof fn lemma_entries_pay_grows(entries: Seq<Attendee>, fewer: int, more: int)
    requires
        0 <= fewer <= more,
    ensures
        entries_pay(entries, fewer) <= entries_pay(entries, more),
    decreases more,
{
    if fewer < more {
        lemma_entries_pay_grows(entries, fewer, more - 1);
    }
}

/// A meeting without attendees costs nothing, and so does a meeting that has
/// not been active for a whole millisecond: in particular one that was just
/// created or reset.
pub proof fn lemma_no_cost(view: MeetingView, run: nat)
    requires
        view.roster == Map::<Seq<char>, Aggregate>::empty() || active_nanos(view, run) < 1_000_000,
    ensures
        cost_numerator(view, run) == 0,
        cost_numerator(initial_view(), run) == 0,
{
    assert(Map::<Seq<char>, Aggregate>::empty().dom() =~= Set::empty());
    assert(roster_pay(Map::<Seq<char>, Aggregate>::empty()) == 0);
    let millis = active_nanos(view, run) / 1_000_000;
    assert(roster_pay(view.roster) * millis == 0) by (nonlinear_arith)
        requires
            roster_pay(view.roster) == 0 || millis == 0,
    ;
    assert(0 * (active_nanos(initial_view(), run) / 1_000_000) == 0);
}

/// What starting the timer does to a meeting.
///
/// A running meeting stays exactly as it is.  A stopped one runs afterwards,
/// with its roster and accumulated time unchanged.
pub open spec fn starts(before: Meeting, after: Meeting) -> bool {
    &&& after.wf()
    &&& before@.running ==> after == before
    &&& !before@.running ==> after@ == (MeetingView {
        running: true,
        since: after@.since,
        ..before@
    })
}

/// What stopping the timer does to a meeting.
///
/// A stopped meeting stays exactly as it is.  A running one is stopped as if
/// its run had lasted some span that the clock gave.
pub open spec fn stops(before: Meeting, after: Meeting) -> bool {
    &&& after.wf()
    &&& !before@.running ==> after == before
    &&& exists|run: nat| after@ == stopped_view(before@, run)
}

/// Attendees who join and then leave, as many as joined, leave the roster as
/// it was before, where the counter of their category had room for them.
pub proof fn lemma_remove_undoes_add(roster: Roster, title: Seq<char>, salary: u64, count: u32)
    requires
        roster_wf(roster),
        roster_has_room(roster, title, count),
    ensures
        roster_remove(roster_add(roster, title, salary, count), title, count) == roster,
{
    assert(roster_remove(roster_add(roster, title, salary, count), title, count) =~= roster);
}

/// Taking away as many attendees as a category has, or more, removes the
/// category: its count never passes below zero.
pub proof fn lemma_remove_all_deletes(roster: Roster, title: Seq<char>, count: u32)
    requires
        roster.contains_key(title),
        count >= roster[title].count,
    ensures
        roster_remove(roster, title, count) == roster.remove(title),
        !roster_remove(roster, title, count).contains_key(title),
{
}

/// Attendees of one category who join in two groups are counted together,
/// under the salary that the first group came with.
pub proof fn lemma_add_accumulates(
    roster: Roster,
    title: Seq<char>,
    first_salary: u64,
    first: u32,
    second_salary: u64,
    second: u32,
)
    requires
        first > 0,
        first + second <= u32::MAX,
        roster_has_room(roster, title, (first + second) as u32),
    ensures
        roster_add(roster_add(roster, title, first_salary, first), title, second_salary, second)
            == roster_add(roster, title, first_salary, (first + second) as u32),
{
    assert(roster_add(
        roster_add(roster, title, first_salary, first),
        title,
        second_salary,
        second,
    ) =~= roster_add(roster, title, first_salary, (first + second) as u32));
}

/// Joining and leaving keep a roster free of categories without attendees.
pub proof fn lemma_roster_stays_wf(roster: Roster, title: Seq<char>, salary: u64, count: u32)
    requires
        roster_wf(roster),
    ensures
        roster_wf(roster_add(roster, title, salary, count)),
        roster_wf(roster_remove(roster, title, count)),
{
}

/// The time a meeting has been active never goes back as its run goes on.
pub proof fn lemma_active_time_never_decreases(view: MeetingView, earlier: nat, later: nat)
    requires
        earlier <= later,
    ensures
        active_nanos(view, earlier) <= active_nanos(view, later),
{
}

/// While a meeting is stopped the time it has been active does not depend on
/// the clock: it is the accumulated time.
pub proof fn lemma_active_time_constant_while_stopped(view: MeetingView, one: nat, other: nat)
    requires
        !view.running,
    ensures
        active_nanos(view, one) == active_nanos(view, other),
        active_nanos(view, one) == view.elapsed,
{
}

/// Starting a meeting twice in a row is the same as starting it once.
pub proof fn lemma_start_twice(before: Meeting, once: Meeting, twice: Meeting)
    requires
        starts(before, once),
        starts(once, twice),
    ensures
        twice == once,
{
}

/// Stopping a meeting twice in a row is the same as stopping it once.
pub proof fn lemma_stop_twice(before: Meeting, once: Meeting, twice: Meeting)
    requires
        stops(before, once),
        stops(once, twice),
    ensures
        twice == once,
{
}

/// A meeting that was just created or reset has been active for no time at
/// all, whatever the clock says.
pub proof fn lemma_initial_time_is_zero(run: nat)
    ensures
        active_nanos(initial_view(), run) == 0,
{
}

impl Meeting {
    /// How the entries are kept: no title twice, no entry without attendees.
    pub closed spec fn inv(&self) -> bool {
        &&& distinct(self.attendees@)
        &&& forall|i: int| 0 <= i < self.attendees@.len() ==> (#[trigger] self.attendees@[i]).count > 0
    }

    /// A meeting is valid when its entries are in order, no category is
    /// present with a count of zero, the accumulated time is one that a
    /// `Duration` can hold, and a start reading is kept exactly while it runs.
    pub open spec fn wf(&self) -> bool {
        &&& self.inv()
        &&& roster_wf(self@.roster)
        &&& self@.elapsed <= max_nanos()
        &&& self@.running <==> self@.since is Some
    }

    /// Creates an empty meeting that is not running.
    pub fn new() -> (meeting: Self)
        ensures
            meeting.wf(),
            meeting@ == initial_view(),
    {
        let meeting = Self {
            attendees: Vec::new(),
            start_time: None,
            elapsed: zero(),
            running: false,
        };
        proof {
            assert forall|title: Seq<char>| !holds(meeting.attendees@, title) by {}
            assert(roster_of(meeting.attendees@) =~= Map::empty());
            lemma_roster_finite(meeting.attendees@);
        }
        meeting
    }

    /// Whether the meeting is running.
    pub fn is_running(&self) -> (running: bool)
        ensures
            running == self@.running,
    {
        self.running
    }

    /// Finds the entry filed under `title`.
    fn position(&self, title: &str) -> (found: Option<usize>)
        requires
            self.inv(),
        ensures
            match found {
                Some(i) => i < self.attendees@.len() && self.attendees@[i as int].key() == title@
                    && self@.roster.contains_key(title@) && self@.roster[title@]
                    == self.attendees@[i as int].aggregate(),
                None => !self@.roster.contains_key(title@),
            },
    {
        let key: String = title.to_owned();
        let mut i: usize = 0;
        while i < self.attendees.len()
            invariant
                self.inv(),
                i <= self.attendees@.len(),
                key@ == title@,
                forall|j: int| 0 <= j < i ==> (#[trigger] self.attendees@[j]).key() != title@,
            decreases self.attendees@.len() - i,
        {
            if self.attendees[i].title == key {
                proof {
                    lemma_entry_in_roster(self.attendees@, i as int);
                }
                return Some(i);
            }
            i += 1;
        }
        proof {
            if roster_of(self.attendees@).contains_key(title@) {
                lemma_roster_has_entry(self.attendees@, title@);
            }
        }
        None
    }

    /// Adds `count` attendees of `category` to the meeting.
    ///
    /// A category that is already present keeps the salary it was first added
    /// with.  Adding nobody changes nothing.  Where the counter of the
    /// category has no room for `count` more, the meeting is left exactly as
    /// it is.  The timer is left as it is.
    pub fn add_attendee(&mut self, category: &EmployeeCategory, count: u32)
        requires
            old(self).wf(),
        ensures
            final(self).wf(),
            final(self)@ == (MeetingView {
                roster: roster_add(old(self)@.roster, category@.title, category@.salary, count),
                ..old(self)@
            }),
            !roster_has_room(old(self)@.roster, category@.title, count) ==> *final(self) == *old(
                self,
            ),
    {
        if count == 0 {
            return ;
        }
        let ghost before = self.attendees@;
        let ghost target = roster_add(old(self)@.roster, category@.title, category@.salary, count);
        match self.position(category.title()) {
            Some(i) => {
                if self.attendees[i].count > u32::MAX - count {
                    return ;
                }
                let sum: u32 = self.attendees[i].count + count;
                self.attendees[i].count = sum;
                proof {
                    let after = self.attendees@;
                    assert(after.len() == before.len());
                    assert forall|j: int| 0 <= j < after.len() implies (#[trigger] after[j]).key()
                        == before[j].key() by {}
                    assert(distinct(after)) by {
                        assert forall|a: int, b: int| 0 <= a < b < after.len() implies (
                        #[trigger] after[a]).key() != (#[trigger] after[b]).key() by {
                            assert(before[a].key() != before[b].key());
                        }
                    }
                    assert forall|title: Seq<char>| holds(after, title) == holds(before, title) by {
                        if holds(after, title) {
                            let k = slot(after, title);
                            assert(before[k].key() == title);
                        }
                        if holds(before, title) {
                            let k = slot(before, title);
                            assert(after[k].key() == title);
                        }
                    }
                    assert forall|title: Seq<char>| #[trigger]
                        roster_of(after).contains_key(title) implies roster_of(after)[title]
                        == target[title] by {
                        lemma_roster_has_entry(after, title);
                        let k = slot(after, title);
                        lemma_entry_in_roster(after, k);
                        lemma_entry_in_roster(before, k);
                    }
                    assert(roster_of(after) =~= target);
                    lemma_roster_finite(after);
                }
            },
            None => {
                let entry = Attendee::new(category.title().to_owned(), category.salary(), count);
                self.attendees.push(entry);
                proof {
                    let after = self.attendees@;
                    assert(after == before.push(entry));
                    assert(distinct(after)) by {
                        assert forall|a: int, b: int| 0 <= a < b < after.len() implies (
                        #[trigger] after[a]).key() != (#[trigger] after[b]).key() by {
                            if b < before.len() {
                                assert(before[a].key() != before[b].key());
                            } else {
                                lemma_entry_in_roster(before, a);
                            }
                        }
                    }
                    assert forall|title: Seq<char>| #[trigger]
                        target.contains_key(title) implies roster_of(after).contains_key(title)
                        && roster_of(after)[title] == target[title] by {
                        if title == category@.title {
                            lemma_entry_in_roster(after, before.len() as int);
                        } else {
                            lemma_roster_has_entry(before, title);
                            let k = slot(before, title);
                            assert(after[k] == before[k]);
                            lemma_entry_in_roster(after, k);
                        }
                    }
                    assert forall|title: Seq<char>| #[trigger]
                        roster_of(after).contains_key(title) implies target.contains_key(title) by {
                        lemma_roster_has_entry(after, title);
                        let k = slot(after, title);
                        if k < before.len() {
                            assert(after[k] == before[k]);
                            lemma_entry_in_roster(before, k);
                        }
                    }
                    assert(roster_of(after) =~= target);
                    lemma_roster_finite(after);
                }
            },
        }
    }

    /// Adds `count` attendees of `category` to the meeting where the counter
    /// of the category has room for them, and tells whether it had.
    ///
    /// Without room the meeting is left exactly as it is.
    pub fn try_add_attendee(&mut self, category: &EmployeeCategory, count: u32) -> (added: bool)
        requires
            old(self).wf(),
        ensures
            final(self).wf(),
            added == roster_has_room(old(self)@.roster, category@.title, count),
            final(self)@ == (MeetingView {
                roster: roster_add(old(self)@.roster, category@.title, category@.salary, count),
                ..old(self)@
            }),
            !added ==> *final(self) == *old(self),
    {
        match self.attendee_count(category.title()) {
            Some(present) => {
                if present > u32::MAX - count {
                    return false;
                }
            },
            None => {},
        }
        self.add_attendee(category, count);
        true
    }

    /// Removes `count` attendees of the category `title` from the meeting.
    ///
    /// Taking away as many as are present, or more, removes the category.  A
    /// category that is not present is left absent.  The timer is left as it
    /// is.
    pub fn remove_attendee(&mut self, title: &str, count: u32)
        requires
            old(self).wf(),
        ensures
            final(self).wf(),
            final(self)@ == (MeetingView {
                roster: roster_remove(old(self)@.roster, title@, count),
                ..old(self)@
            }),
    {
        let ghost before = self.attendees@;
        let ghost target = roster_remove(old(self)@.roster, title@, count);
        match self.position(title) {
            Some(i) => {
                if self.attendees[i].count <= count {
                    self.attendees.remove(i);
                    proof {
                        let after = self.attendees@;
                        assert(after == before.remove(i as int));
                        assert forall|j: int| 0 <= j < after.len() implies #[trigger] after[j] == before[if j
                            < i {
                            j
                        } else {
                            j + 1
                        }] by {}
                        assert(distinct(after)) by {
                            assert forall|a: int, b: int| 0 <= a < b < after.len() implies (
                            #[trigger] after[a]).key() != (#[trigger] after[b]).key() by {
                                let a0 = if a < i { a } else { a + 1 };
                                let b0 = if b < i { b } else { b + 1 };
                                assert(before[a0].key() != before[b0].key());
                            }
                        }
                        assert forall|t: Seq<char>| #[trigger]
                            target.contains_key(t) implies roster_of(after).contains_key(t)
                            && roster_of(after)[t] == target[t] by {
                            lemma_roster_has_entry(before, t);
                            let k = slot(before, t);
                            let k1 = if k < i { k } else { k - 1 };
                            assert(after[k1] == before[k]);
                            lemma_entry_in_roster(after, k1);
                        }
                        assert forall|t: Seq<char>| #[trigger]
                            roster_of(after).contains_key(t) implies target.contains_key(t) by {
                            lemma_roster_has_entry(after, t);
                            let k = slot(after, t);
                            let k0 = if k < i { k } else { k + 1 };
                            assert(after[k] == before[k0]);
                            lemma_entry_in_roster(before, k0);
                            if k0 < i {
                                assert(before[k0].key() != before[i as int].key());
                            } else {
                                assert(before[i as int].key() != before[k0].key());
                            }
                        }
                        assert(roster_of(after) =~= target);
                        lemma_roster_finite(after);
                    }
                } else {
                    let rest: u32 = self.attendees[i].count - count;
                    self.attendees[i].count = rest;
                    proof {
                        let after = self.attendees@;
                        assert(after.len() == before.len());
                        assert forall|j: int| 0 <= j < after.len() implies (
                        #[trigger] after[j]).key() == before[j].key() by {}
                        assert(distinct(after)) by {
                            assert forall|a: int, b: int| 0 <= a < b < after.len() implies (
                            #[trigger] after[a]).key() != (#[trigger] after[b]).key() by {
                                assert(before[a].key() != before[b].key());
                            }
                        }
                        assert forall|t: Seq<char>| holds(after, t) == holds(before, t) by {
                            if holds(after, t) {
                                let k = slot(after, t);
                                assert(before[k].key() == t);
                            }
                            if holds(before, t) {
                                let k = slot(before, t);
                                assert(after[k].key() == t);
                            }
                        }
                        assert forall|t: Seq<char>| #[trigger]
                            roster_of(after).contains_key(t) implies roster_of(after)[t]
                            == target[t] by {
                            lemma_roster_has_entry(after, t);
                            let k = slot(after, t);
                            lemma_entry_in_roster(after, k);
                            lemma_entry_in_roster(before, k);
                        }
                        assert(roster_of(after) =~= target);
                        lemma_roster_finite(after);
                    }
                }
            },
            None => {},
        }
    }

    /// Removes every attendee and leaves the timer as it is.
    pub fn clear_attendees(&mut self)
        requires
            old(self).wf(),
        ensures
            final(self).wf(),
            final(self)@ == (MeetingView { roster: Map::empty(), ..old(self)@ }),
    {
        self.attendees.clear();
        proof {
            assert forall|title: Seq<char>| !holds(self.attendees@, title) by {}
            assert(roster_of(self.attendees@) =~= Map::empty());
            lemma_roster_finite(self.attendees@);
        }
    }

    /// How many attendees of the category `title` are present, if any are.
    pub fn attendee_count(&self, title: &str) -> (count: Option<u32>)
        requires
            self.wf(),
        ensures
            count == if self@.roster.contains_key(title@) {
                Some(self@.roster[title@].count)
            } else {
                None
            },
    {
        match self.position(title) {
            Some(i) => Some(self.attendees[i].count),
            None => None,
        }
    }

    /// Lists the roster: for each category that is present its title, the
    /// salary it was first added with, and its count.
    ///
    /// Every category of the roster is listed once; no order is promised.
    pub fn attendees(&self) -> (list: Vec<(String, u64, u32)>)
        requires
            self.wf(),
        ensures
            lists_roster(list@, self@.roster),
    {
        let mut list: Vec<(String, u64, u32)> = Vec::new();
        let mut i: usize = 0;
        while i < self.attendees.len()
            invariant
                i <= self.attendees@.len(),
                list@.len() == i,
                forall|j: int|
                    0 <= j < i ==> (#[trigger] list@[j]).0@ == self.attendees@[j].key()
                        && list@[j].1 == self.attendees@[j].aggregate().salary && list@[j].2
                        == self.attendees@[j].aggregate().count,
            decreases self.attendees@.len() - i,
        {
            let entry = &self.attendees[i];
            list.push((entry.title.clone(), entry.salary, entry.count));
            i += 1;
        }
        proof {
            let entries = self.attendees@;
            assert forall|j: int| 0 <= j < list@.len() implies listed(
                #[trigger] list@[j],
                self@.roster,
            ) by {
                lemma_entry_in_roster(entries, j);
            }
            assert forall|a: int, b: int| 0 <= a < b < list@.len() implies (#[trigger] list@[a]).0@
                != (#[trigger] list@[b]).0@ by {
                assert(entries[a].key() != entries[b].key());
            }
            assert forall|title: Seq<char>| #[trigger]
                self@.roster.contains_key(title) implies exists|j: int|
                0 <= j < list@.len() && (#[trigger] list@[j]).0@ == title by {
                lemma_roster_has_entry(entries, title);
                assert(list@[slot(entries, title)].0@ == title);
            }
        }
        list
    }

    /// Starts the timer.
    ///
    /// A meeting that is already running is left exactly as it is: the
    /// reading at which its run began is kept.
    pub fn start(&mut self)
        requires
            old(self).wf(),
        ensures
            starts(*old(self), *final(self)),
    {
        if !self.running {
            self.start_time = Some(now());
            self.running = true;
        }
    }

    /// Stops the timer, the current run having lasted `run`, and adds the run
    /// to the accumulated time, which stays at the longest span a `Duration`
    /// can hold once it has reached it.
    ///
    /// A meeting that is not running is left exactly as it is.
    pub fn stop_after(&mut self, run: Duration)
        requires
            old(self).wf(),
        ensures
            final(self).wf(),
            final(self)@ == stopped_view(old(self)@, duration_nanos(run)),
            !old(self)@.running ==> *final(self) == *old(self),
    {
        if self.running {
            self.elapsed = saturating_sum(self.elapsed, run);
            self.start_time = None;
            self.running = false;
        }
    }

    /// Stops the timer and adds the time since it was started to the
    /// accumulated time.
    ///
    /// A meeting that is not running is left exactly as it is.  How long the
    /// run lasted is for the clock to say.
    pub fn stop(&mut self)
        requires
            old(self).wf(),
        ensures
            stops(*old(self), *final(self)),
    {
        let run = self.current_duration();
        self.stop_after(run);
    }

    /// Returns the meeting to the state of a new one: no attendees, no
    /// accumulated time, not running.
    pub fn reset(&mut self)
        ensures
            final(self).wf(),
            final(self)@ == initial_view(),
    {
        self.attendees.clear();
        self.start_time = None;
        self.elapsed = zero();
        self.running = false;
        proof {
            assert forall|title: Seq<char>| !holds(self.attendees@, title) by {}
            assert(roster_of(self.attendees@) =~= Map::empty());
            lemma_roster_finite(self.attendees@);
        }
    }

    /// How long the current run has lasted: nothing while the meeting is
    /// stopped, and what the clock says while it runs.
    pub fn current_duration(&self) -> (run: Duration)
        ensures
            !self@.running ==> duration_nanos(run) == 0,
    {
        if self.running {
            match &self.start_time {
                Some(start) => elapsed_since(start),
                None => zero(),
            }
        } else {
            zero()
        }
    }

    /// The time the meeting has been active, its current run having lasted
    /// `run`: the accumulated time, plus the run while it is running.
    pub fn duration_after(&self, run: Duration) -> (total: Duration)
        requires
            self.wf(),
        ensures
            duration_nanos(total) == active_nanos(self@, duration_nanos(run)),
    {
        if self.running {
            saturating_sum(self.elapsed, run)
        } else {
            saturating_sum(self.elapsed, zero())
        }
    }

    /// The time the meeting has been active.
    ///
    /// While the meeting is stopped this is the accumulated time.  While it
    /// runs, the time since the start is added, which is for the clock to say.
    pub fn duration(&self) -> (total: Duration)
        requires
            self.wf(),
        ensures
            exists|run: nat| duration_nanos(total) == active_nanos(self@, run),
            !self@.running ==> duration_nanos(total) == self@.elapsed,
    {
        let run = self.current_duration();
        self.duration_after(run)
    }

    /// What all attendees earn together in a work year, or `None` where that
    /// is more than a `u128` can hold.
    pub fn yearly_pay(&self) -> (pay: Option<u128>)
        requires
            self.wf(),
        ensures
            match pay {
                Some(pay) => pay == roster_pay(self@.roster),
                None => roster_pay(self@.roster) > u128::MAX,
            },
    {
        proof {
            lemma_entries_pay(self.attendees@);
        }
        let mut pay: u128 = 0;
        let mut i: usize = 0;
        while i < self.attendees.len()
            invariant
                i <= self.attendees@.len(),
                pay == entries_pay(self.attendees@, i as int),
                entries_pay(self.attendees@, self.attendees@.len() as int) == roster_pay(
                    self@.roster,
                ),
            decreases self.attendees@.len() - i,
        {
            let entry = &self.attendees[i];
            let salary: u128 = entry.salary as u128;
            let count: u128 = entry.count as u128;
            assert(salary * count <= 0xFFFF_FFFF_FFFF_FFFF * 0xFFFF_FFFF) by (nonlinear_arith)
                requires
                    salary <= 0xFFFF_FFFF_FFFF_FFFF,
                    count <= 0xFFFF_FFFF,
            ;
            match pay.checked_add(salary * count) {
                Some(sum) => {
                    pay = sum;
                },
                None => {
                    proof {
                        lemma_entries_pay_grows(
                            self.attendees@,
                            i + 1,
                            self.attendees@.len() as int,
                        );
                    }
                    return None;
                },
            }
            i += 1;
        }
        Some(pay)
    }

    /// The cost of the meeting, its current run having lasted `run`, as a
    /// numerator over `MILLIS_PER_WORK_YEAR`, or `None` where that is more
    /// than a `u128` can hold.
    ///
    /// The cost in dollars is the numerator divided by `MILLIS_PER_WORK_YEAR`.
    pub fn cost_numerator_after(&self, run: Duration) -> (cost: Option<u128>)
        requires
            self.wf(),
        ensures
            match cost {
                Some(cost) => cost == cost_numerator(self@, duration_nanos(run)),
                None => cost_numerator(self@, duration_nanos(run)) > u128::MAX,
            },
    {
        let millis: u128 = whole_millis(self.duration_after(run));
        let ghost pay_per_year = roster_pay(self@.roster);
        match self.yearly_pay() {
            Some(pay) => pay.checked_mul(millis),
            None => {
                if millis == 0 {
                    assert(pay_per_year * 0 == 0) by (nonlinear_arith);
                    Some(0)
                } else {
                    assert(pay_per_year * millis >= pay_per_year) by (nonlinear_arith)
                        requires
                            millis >= 1,
                    ;
                    None
                }
            },
        }
    }

    /// The cost of the meeting so far, as a numerator over
    /// `MILLIS_PER_WORK_YEAR`, or `None` where that is more than a `u128` can
    /// hold.
    ///
    /// While the meeting runs, how long the current run has lasted is for the
    /// clock to say.
    pub fn cost_numerator(&self) -> (cost: Option<u128>)
        requires
            self.wf(),
        ensures
            exists|run: nat|
                match cost {
                    Some(cost) => cost == cost_numerator(self@, run),
                    None => cost_numerator(self@, run) > u128::MAX,
                },
            !self@.running ==> match cost {
                Some(cost) => cost == cost_numerator(self@, 0),
                None => cost_numerator(self@, 0) > u128::MAX,
            },
    {
        let run = self.current_duration();
        self.cost_numerator_after(run)
    }
}

impl Default for Meeting {
    /// An empty meeting that is not running.
    fn default() -> (meeting: Self)
        ensures
            meeting.wf(),
            meeting@ == initial_view(),
    {
        Meeting::new()
    }
}

} // verus!
