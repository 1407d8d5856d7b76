use vstd::prelude::*;

verus! {

/// A race weekend of the season, as the OpenF1 `meetings` endpoint describes it.
#[derive(Debug, Clone, PartialEq, Eq)]
pub struct Meeting {
    pub circuit_image: String,
    pub circuit_info_url: String,
    pub circuit_key: i64,
    pub circuit_short_name: String,
    pub circuit_type: String,
    pub country_code: String,
    pub country_flag: String,
    pub country_key: i64,
    pub country_name: String,
    pub date_end: String,
    pub date_start: String,
    pub gmt_offset: String,
    pub is_cancelled: bool,
    pub location: String,
    pub meeting_key: i64,
    pub meeting_name: String,
    pub meeting_official_name: String,
    pub year: i64,
}

/// One session (practice, qualifying, sprint or race) of a meeting.
#[derive(Debug, Clone, PartialEq, Eq)]
pub struct Session {
    pub circuit_key: i64,
    pub circuit_short_name: String,
    pub country_code: String,
    pub country_key: i64,
    pub country_name: String,
    pub date_end: String,
    pub date_start: String,
    pub gmt_offset: String,
    pub is_cancelled: bool,
    pub location: String,
    pub meeting_key: i64,
    pub session_key: i64,
    pub session_name: String,
    pub session_type: String,
    pub year: i64,
}

/// A driver entry of the roster.
#[derive(Debug, Clone, PartialEq, Eq)]
pub struct Driver {
    pub broadcast_name: String,
    pub country_code: String,
    pub driver_number: i64,
    pub first_name: String,
    pub full_name: String,
    pub headshot_url: String,
    pub last_name: String,
    pub meeting_key: i64,
    pub name_acronym: String,
    pub session_key: i64,
    pub team_colour: String,
    pub team_name: String,
}

/// A starting-grid row; the lap time is held in whole milliseconds.
#[derive(Debug, Clone, Copy, PartialEq, Eq)]
pub struct StartingGrid {
    pub driver_number: i64,
    pub lap_duration_ms: Option<i64>,
    pub meeting_key: i64,
    pub position: i64,
    pub session_key: i64,
}

impl Meeting {
    pub fn duplicate(&self) -> (r: Self)
        ensures
            r == *self,
    {
        Meeting {
            circuit_image: self.circuit_image.clone(),
            circuit_info_url: self.circuit_info_url.clone(),
            circuit_key: self.circuit_key,
            circuit_short_name: self.circuit_short_name.clone(),
            circuit_type: self.circuit_type.clone(),
            country_code: self.country_code.clone(),
            country_flag: self.country_flag.clone(),
            country_key: self.country_key,
            country_name: self.country_name.clone(),
            date_end: self.date_end.clone(),
            date_start: self.date_start.clone(),
            gmt_offset: self.gmt_offset.clone(),
            is_cancelled: self.is_cancelled,
            location: self.location.clone(),
            meeting_key: self.meeting_key,
            meeting_name: self.meeting_name.clone(),
            meeting_official_name: self.meeting_official_name.clone(),
            year: self.year,
        }
    }
}

impl Session {
    pub fn duplicate(&self) -> (r: Self)
        ensures
            r == *self,
    {
        Session {
            circuit_key: self.circuit_key,
            circuit_short_name: self.circuit_short_name.clone(),
            country_code: self.country_code.clone(),
            country_key: self.country_key,
            country_name: self.country_name.clone(),
            date_end: self.date_end.clone(),
            date_start: self.date_start.clone(),
            gmt_offset: self.gmt_offset.clone(),
            is_cancelled: self.is_cancelled,
            location: self.location.clone(),
            meeting_key: self.meeting_key,
            session_key: self.session_key,
            session_name: self.session_name.clone(),
            session_type: self.session_type.clone(),
            year: self.year,
        }
    }
}

impl Driver {
    pub fn duplicate(&self) -> (r: Self)
        ensures
            r == *self,
    {
        Driver {
            broadcast_name: self.broadcast_name.clone(),
            country_code: self.country_code.clone(),
            driver_number: self.driver_number,
            first_name: self.first_name.clone(),
            full_name: self.full_name.clone(),
            headshot_url: self.headshot_url.clone(),
            last_name: self.last_name.clone(),
            meeting_key: self.meeting_key,
            name_acronym: self.name_acronym.clone(),
            session_key: self.session_key,
            team_colour: self.team_colour.clone(),
            team_name: self.team_name.clone(),
        }
    }
}

/// Copies the entries of `v` at the positions listed in `order`.
pub fn pick_meetings(v: &Vec<Meeting>, order: &Vec<usize>) -> (r: Vec<Meeting>)
    requires
        forall|m: int| 0 <= m < order@.len() ==> (order@[m] as int) < v@.len(),
    ensures
        r@.len() == order@.len(),
        forall|m: int| 0 <= m < order@.len() ==> r@[m] == v@[order@[m] as int],
{
    let mut r: Vec<Meeting> = Vec::new();
    let mut i: usize = 0;
    while i < order.len()
        invariant
            i <= order@.len(),
            forall|m: int| 0 <= m < order@.len() ==> (order@[m] as int) < v@.len(),
            r@.len() == i,
            forall|m: int| 0 <= m < i ==> r@[m] == v@[order@[m] as int],
        decreases order.len() - i,
    {
        r.push(v[order[i]].duplicate());
        i = i + 1;
    }
    r
}

/// Copies the entries of `v` at the positions listed in `order`.
pub fn pick_sessions(v: &Vec<Session>, order: &Vec<usize>) -> (r: Vec<Session>)
    requires
        forall|m: int| 0 <= m < order@.len() ==> (order@[m] as int) < v@.len(),
    ensures
        r@.len() == order@.len(),
        forall|m: int| 0 <= m < order@.len() ==> r@[m] == v@[order@[m] as int],
{
    let mut r: Vec<Session> = Vec::new();
    let mut i: usize = 0;
    while i < order.len()
        invariant
            i <= order@.len(),
            forall|m: int| 0 <= m < order@.len() ==> (order@[m] as int) < v@.len(),
            r@.len() == i,
            forall|m: int| 0 <= m < i ==> r@[m] == v@[order@[m] as int],
        decreases order.len() - i,
    {
        r.push(v[order[i]].duplicate());
        i = i + 1;
    }
    r
}

/// Copies the entries of `v` at the positions listed in `order`.
pub fn pick_drivers(v: &Vec<Driver>, order: &Vec<usize>) -> (r: Vec<Driver>)
    requires
        forall|m: int| 0 <= m < order@.len() ==> (order@[m] as int) < v@.len(),
    ensures
        r@.len() == order@.len(),
        forall|m: int| 0 <= m < order@.len() ==> r@[m] == v@[order@[m] as int],
{
    let mut r: Vec<Driver> = Vec::new();
    let mut i: usize = 0;
    while i < order.len()
        invariant
            i <= order@.len(),
            forall|m: int| 0 <= m < order@.len() ==> (order@[m] as int) < v@.len(),
            r@.len() == i,
            forall|m: int| 0 <= m < i ==> r@[m] == v@[order@[m] as int],
        decreases order.len() - i,
    {
        r.push(v[order[i]].duplicate());
        i = i + 1;
    }
    r
}

} // verus!

verus! {

/// A copy of a list of meetings.
pub fn copy_meetings(v: &Vec<Meeting>) -> (r: Vec<Meeting>)
    ensures
        r@ == v@,
{
    let mut r: Vec<Meeting> = Vec::new();
    let mut i: usize = 0;
    while i < v.len()
        invariant
            i <= v@.len(),
            r@ == v@.subrange(0, i as int),
        decreases v.len() - i,
    {
        r.push(v[i].duplicate());
        assert(r@ =~= v@.subrange(0, (i + 1) as int));
        i = i + 1;
    }
    assert(v@.subrange(0, v@.len() as int) =~= v@);
    r
}

/// A copy of a list of sessions.
pub fn copy_sessions(v: &Vec<Session>) -> (r: Vec<Session>)
    ensures
        r@ == v@,
{
    let mut r: Vec<Session> = Vec::new();
    let mut i: usize = 0;
    while i < v.len()
        invariant
            i <= v@.len(),
            r@ == v@.subrange(0, i as int),
        decreases v.len() - i,
    {
        r.push(v[i].duplicate());
        assert(r@ =~= v@.subrange(0, (i + 1) as int));
        i = i + 1;
    }
    assert(v@.subrange(0, v@.len() as int) =~= v@);
    r
}

/// A copy of a list of drivers.
pub fn copy_drivers(v: &Vec<Driver>) -> (r: Vec<Driver>)
    ensures
        r@ == v@,
{
    let mut r: Vec<Driver> = Vec::new();
    let mut i: usize = 0;
    while i < v.len()
        invariant
            i <= v@.len(),
            r@ == v@.subrange(0, i as int),
        decreases v.len() - i,
    {
        r.push(v[i].duplicate());
        assert(r@ =~= v@.subrange(0, (i + 1) as int));
        i = i + 1;
    }
    assert(v@.subrange(0, v@.len() as int) =~= v@);
    r
}

} // verus!
