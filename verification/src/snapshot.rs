//! The timetable of one day as a whole: its date, its groups and its
//! fingerprint; and the two pages that a timetable is fetched from.

use crate::date::{
    clamped_add, clamped_sum, clock_at, date_of, date_of_timestamp, is_week_even, now, Date,
    Weekday, DAY,
};
use crate::digest::{digest_of, groups_bytes, push_group, uid_of, Uid};
use crate::timetable::{group_views, Group, GroupData};
use vstd::prelude::*;

verus! {

/// What a snapshot holds.
pub ghost struct SnapshotData {
    pub date: Date,
    pub is_week_even: bool,
    pub parsed_date: i64,
    pub uid: Seq<char>,
    pub groups: Seq<GroupData>,
}

/// The timetable of one day.
#[derive(Debug, PartialEq, Eq)]
pub struct Snapshot {
    /// The day that the timetable describes.
    pub date: Date,
    /// Whether that day lies in a week with an even ISO week number.
    pub is_week_even: bool,
    /// When the timetable was read, in seconds of the timetable's clock.
    pub parsed_date: i64,
    /// The fingerprint of the groups.
    pub uid: String,
    pub groups: Vec<Group>,
}

impl View for Snapshot {
    type V = SnapshotData;

    open spec fn view(&self) -> SnapshotData {
        SnapshotData {
            date: self.date,
            is_week_even: self.is_week_even,
            parsed_date: self.parsed_date,
            uid: self.uid@,
            groups: group_views(self.groups@),
        }
    }
}

/// The identifier of a run of groups.
pub open spec fn snapshot_uid(groups: Seq<GroupData>) -> Seq<char> {
    uid_of(groups_bytes(groups))
}

/// Index of the first group at or after `i` with the given name, or -1.
pub open spec fn index_of_group(groups: Seq<GroupData>, name: Seq<char>, i: int) -> int
    decreases groups.len() - i,
{
    if i < 0 || i >= groups.len() {
        -1
    } else if groups[i].name == name {
        i
    } else {
        index_of_group(groups, name, i + 1)
    }
}

/// The index found is that of a group of the given name, and no group
/// before it has that name; where none is found, no group has it.
pub proof fn lemma_index_of_group(groups: Seq<GroupData>, name: Seq<char>, i: int)
    requires
        0 <= i,
    ensures
        index_of_group(groups, name, i) == -1 || (i <= index_of_group(groups, name, i)
            < groups.len() && groups[index_of_group(groups, name, i)].name == name),
        index_of_group(groups, name, i) == -1 ==> forall|k: int|
            i <= k < groups.len() ==> (#[trigger] groups[k]).name != name,
    decreases groups.len() - i,
{
    if i < groups.len() && groups[i].name != name {
        lemma_index_of_group(groups, name, i + 1);
    }
}

fn push_groups(buf: &mut Vec<u8>, groups: &Vec<Group>)
    ensures
        final(buf)@ == old(buf)@ + groups_bytes(group_views(groups@)),
{
    let ghost before = buf@;
    let ghost model = group_views(groups@);
    let mut i: usize = 0;
    assert(model.subrange(0, 0) == Seq::<GroupData>::empty());
    assert(before + Seq::<u8>::empty() == before);
    while i < groups.len()
        invariant
            i <= groups.len(),
            model == group_views(groups@),
            buf@ == before + groups_bytes(model.subrange(0, i as int)),
        decreases groups.len() - i,
    {
        proof {
            let p = model.subrange(0, i + 1);
            assert(p.drop_last() == model.subrange(0, i as int));
            assert(p.last() == groups@[i as int]@);
        }
        push_group(buf, &groups[i]);
        assert(buf@ == before + groups_bytes(model.subrange(0, i + 1)));
        i = i + 1;
    }
    assert(model.subrange(0, groups.len() as int) == model);
}

impl Uid for Snapshot {
    open spec fn content(&self) -> Seq<u8> {
        groups_bytes(self@.groups)
    }

    fn uid_bytes(&self) -> (r: [u8; 32]) {
        let mut buf: Vec<u8> = Vec::new();
        push_groups(&mut buf, &self.groups);
        assert(buf@ == groups_bytes(self@.groups));
        digest_of(&buf)
    }
}

/// A snapshot cut down to one group.
#[derive(Debug, PartialEq, Eq)]
pub struct TinySnapshot {
    pub uid: String,
    pub date: Date,
    pub parsed_date: i64,
    pub group: Option<Group>,
}

impl Snapshot {
    /// The fingerprints in the snapshot are those of its content.
    pub open spec fn wf(&self) -> bool {
        &&& self@.uid == snapshot_uid(self@.groups)
        &&& forall|k: int| 0 <= k < self.groups@.len() ==> (#[trigger] self.groups@[k]).wf()
    }

    /// The snapshot of the given groups for the given day, read at
    /// `parsed_date`.
    pub fn at(groups: Vec<Group>, date: Date, parsed_date: i64) -> (s: Snapshot)
        requires
            date.valid(),
        ensures
            s.date == date,
            s.is_week_even == date.week_is_even(),
            s.parsed_date == parsed_date,
            s.groups@ == groups@,
            s@.uid == snapshot_uid(group_views(groups@)),
    {
        let mut s = Snapshot {
            date,
            is_week_even: is_week_even(&date),
            parsed_date,
            uid: String::new(),
            groups,
        };
        s.uid = s.uid();
        s
    }

    /// The snapshot of the given groups for the given day, read when the
    /// machine's clock shows the UNIX time `machine`.
    pub fn new(groups: Vec<Group>, date: Date, machine: i64) -> (s: Snapshot)
        requires
            date.valid(),
        ensures
            s.date == date,
            s.is_week_even == date.week_is_even(),
            s.parsed_date as int == clock_at(machine as int),
            s.groups@ == groups@,
            s@.uid == snapshot_uid(group_views(groups@)),
    {
        Snapshot::at(groups, date, now(machine))
    }

    /// Works the fingerprints out anew: that of each group from its name
    /// and lessons, then that of the snapshot.
    pub fn refresh(&mut self)
        ensures
            final(self).wf(),
            final(self).date == old(self).date,
            final(self).is_week_even == old(self).is_week_even,
            final(self).parsed_date == old(self).parsed_date,
            final(self).groups@.len() == old(self).groups@.len(),
            forall|k: int|
                0 <= k < old(self).groups@.len() ==> {
                    &&& (#[trigger] final(self).groups@[k])@.name == old(self).groups@[k]@.name
                    &&& final(self).groups@[k]@.lessons == old(self).groups@[k]@.lessons
                },
    {
        let ghost start = self.groups@;
        let mut fresh: Vec<Group> = Vec::new();
        let mut i: usize = 0;
        while i < self.groups.len()
            invariant
                i <= self.groups.len(),
                self.groups@ == start,
                fresh@.len() == i,
                forall|k: int|
                    0 <= k < i ==> {
                        &&& (#[trigger] fresh@[k]).wf()
                        &&& fresh@[k]@.name == start[k]@.name
                        &&& fresh@[k]@.lessons == start[k]@.lessons
                    },
            decreases self.groups.len() - i,
        {
            let mut g = self.groups[i].clone();
            g.uid = g.uid();
            fresh.push(g);
            i = i + 1;
        }
        self.groups = fresh;
        self.uid = self.uid();
    }

    /// The first group of the given name.
    pub fn group(&self, name: &str) -> (r: Option<&Group>)
        ensures
            match r {
                Some(g) => {
                    let k = index_of_group(self@.groups, name@, 0);
                    0 <= k < self.groups@.len() && *g == self.groups@[k]
                },
                None => index_of_group(self@.groups, name@, 0) == -1,
            },
    {
        let wanted = name.to_owned();
        let ghost model = self@.groups;
        let mut i: usize = 0;
        while i < self.groups.len()
            invariant
                i <= self.groups.len(),
                wanted@ == name@,
                model == self@.groups,
                index_of_group(model, name@, 0) == index_of_group(model, name@, i as int),
            decreases self.groups.len() - i,
        {
            assert(model[i as int] == self.groups@[i as int]@);
            if self.groups[i].name == wanted {
                return Some(&self.groups[i]);
            }
            i = i + 1;
        }
        None
    }

    /// A copy of the first group of the given name.
    pub fn group_cloned(&self, name: &str) -> (r: Option<Group>)
        ensures
            match r {
                Some(g) => {
                    let k = index_of_group(self@.groups, name@, 0);
                    0 <= k < self.groups@.len() && g@ == self@.groups[k]
                },
                None => index_of_group(self@.groups, name@, 0) == -1,
            },
    {
        match self.group(name) {
            Some(g) => Some(g.clone()),
            None => None,
        }
    }

    /// The seconds from the reading of the snapshot to the time `at`.
    pub fn age_at(&self, at: i64) -> (r: i64)
        ensures
            r as int == clamped_sum(at as int, -(self.parsed_date as int)),
    {
        if self.parsed_date == i64::MIN {
            if at >= 0 {
                i64::MAX
            } else {
                at - i64::MIN
            }
        } else {
            clamped_add(at, -self.parsed_date)
        }
    }

    /// The seconds that have passed since the snapshot was read, when the
    /// machine's clock shows the UNIX time `machine`.
    pub fn age(&self, machine: i64) -> (r: i64)
        ensures
            r as int == clamped_sum(clock_at(machine as int), -(self.parsed_date as int)),
    {
        self.age_at(now(machine))
    }

    /// Whether the snapshot's day lies in a week with an even number.
    pub fn is_even(&self) -> (r: bool)
        ensures
            r == self.is_week_even,
    {
        self.is_week_even
    }

    /// The snapshot cut down to the first group of the given name.
    pub fn tiny(&self, group: &str) -> (t: TinySnapshot)
        ensures
            t.uid@ == self.uid@,
            t.date == self.date,
            t.parsed_date == self.parsed_date,
            match t.group {
                Some(g) => {
                    let k = index_of_group(self@.groups, group@, 0);
                    0 <= k < self.groups@.len() && g@ == self@.groups[k]
                },
                None => index_of_group(self@.groups, group@, 0) == -1,
            },
    {
        TinySnapshot {
            uid: self.uid.clone(),
            date: self.date,
            parsed_date: self.parsed_date,
            group: self.group_cloned(group),
        }
    }
}

/// Which page to fetch: the timetable of the current day or of the next.
#[derive(Debug, Clone, Copy, PartialEq, Eq, Structural)]
pub enum Fetch {
    Today,
    Next,
}

/// The days from today to the day that a page describes: today's page
/// still shows Saturday on a Sunday; the next day's page shows Monday on a
/// Saturday.
pub open spec fn fetch_offset(mode: Fetch, today: Weekday) -> int {
    match mode {
        Fetch::Today => if today == Weekday::Sun {
            -1
        } else {
            0
        },
        Fetch::Next => if today == Weekday::Sat {
            2
        } else {
            1
        },
    }
}

/// The time that lies as many days from `at` as the page's day lies from
/// the weekday `today`.
pub fn fetch_time(mode: Fetch, at: i64, today: Weekday) -> (r: i64)
    ensures
        r as int == clamped_sum(at as int, fetch_offset(mode, today) * 86400),
{
    let days: i64 = match mode {
        Fetch::Today => match today {
            Weekday::Sun => -1,
            _ => 0,
        },
        Fetch::Next => match today {
            Weekday::Sat => 2,
            _ => 1,
        },
    };
    clamped_add(at, days * DAY)
}

/// The day that a page describes when it is fetched at the time `at` of
/// the timetable's clock; none where the clock is out of the calendar.
pub open spec fn fetch_date_at(mode: Fetch, at: int) -> Option<Date> {
    match date_of(at) {
        Some(today) => date_of(clamped_sum(at, fetch_offset(mode, today.weekday_spec()) * 86400)),
        None => None,
    }
}

/// The day that a page describes when it is fetched at the time `at`.
pub fn fetch_date(mode: Fetch, at: i64) -> (r: Option<Date>)
    ensures
        r == fetch_date_at(mode, at as int),
        r.is_some() ==> r.unwrap().valid(),
{
    match date_of_timestamp(at) {
        Some(today) => date_of_timestamp(fetch_time(mode, at, today.weekday())),
        None => None,
    }
}

/// A source of timetables: where to fetch the page, and which day it
/// describes.
pub trait FetchUrl {
    /// The address of the page.
    fn url(&self) -> &'static str;

    /// The day that the page describes when it is fetched while the
    /// machine's clock shows the UNIX time `machine`, where the calendar
    /// reaches that far.
    fn date(&self, machine: i64) -> Option<Date>;
}

impl FetchUrl for Fetch {
    fn url(&self) -> (r: &'static str)
        ensures
            r@ == match self {
                Fetch::Today => "https://rsp.chemk.org/4korp/today.htm"@,
                Fetch::Next => "https://rsp.chemk.org/4korp/tomorrow.htm"@,
            },
    {
        match self {
            Fetch::Today => "https://rsp.chemk.org/4korp/today.htm",
            Fetch::Next => "https://rsp.chemk.org/4korp/tomorrow.htm",
        }
    }

    fn date(&self, machine: i64) -> (r: Option<Date>)
        ensures
            r == fetch_date_at(*self, clock_at(machine as int)),
            r.is_some() ==> r.unwrap().valid(),
    {
        fetch_date(*self, now(machine))
    }
}

} // verus!
