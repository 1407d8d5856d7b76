use vstd::prelude::*;

use crate::domain::countdown::arrange;
use crate::order::{keys_view, stable_order, stable_sort_indices};
use crate::records::Driver;
use crate::text::{string_views, contains, has_substring, new_text, spec_to_lowercase, trimmed, to_lowercase, trim};

verus! {

#[derive(Debug, Clone, Copy, PartialEq, Eq, Structural, Default)]
pub enum DriverSortField {
    #[default]
    LastName,
    FirstName,
    Code,
    Constructor,
}

#[derive(Debug, Clone, Copy, PartialEq, Eq, Structural, Default)]
pub enum SortDirection {
    #[default]
    Asc,
    Desc,
}

impl SortDirection {
    pub fn toggle(self) -> (r: Self)
        ensures
            r == (match self {
                SortDirection::Asc => SortDirection::Desc,
                SortDirection::Desc => SortDirection::Asc,
            }),
    {
        match self {
            SortDirection::Asc => SortDirection::Desc,
            SortDirection::Desc => SortDirection::Asc,
        }
    }

    pub fn arrow(self) -> (r: &'static str)
        ensures
            r@ == (match self {
                SortDirection::Asc => "↑"@,
                SortDirection::Desc => "↓"@,
            }),
    {
        match self {
            SortDirection::Asc => "↑",
            SortDirection::Desc => "↓",
        }
    }
}

/// How the driver picker lists the roster.
#[derive(Debug, Clone)]
pub struct DriverPickerFilters {
    pub search: String,
    pub sort_field: DriverSortField,
    pub sort_direction: SortDirection,
    pub group_by_constructor: bool,
}

impl Default for DriverPickerFilters {
    fn default() -> (r: Self)
        ensures
            r.search@ == Seq::<char>::empty(),
            r.sort_field == DriverSortField::LastName,
            r.sort_direction == SortDirection::Asc,
            !r.group_by_constructor,
    {
        DriverPickerFilters {
            search: String::new(),
            sort_field: DriverSortField::LastName,
            sort_direction: SortDirection::Asc,
            group_by_constructor: false,
        }
    }
}

/// A section of the picker: a team (empty when not grouped) and its drivers.
#[derive(Debug, Clone)]
pub struct DriverPickerGroup {
    pub team_name: String,
    pub drivers: Vec<Driver>,
}

pub type GroupView = (Seq<char>, Seq<Driver>);

pub open spec fn group_view(g: DriverPickerGroup) -> GroupView {
    (g.team_name@, g.drivers@)
}

pub open spec fn group_views(gs: Seq<DriverPickerGroup>) -> Seq<GroupView> {
    gs.map_values(|g: DriverPickerGroup| group_view(g))
}

/// The code points of a text, as sort keys: comparing them in order is how `str` compares
/// (UTF-8 byte order is code point order).
pub open spec fn char_codes(s: Seq<char>) -> Seq<i64> {
    s.map_values(|c: char| (c as u32) as i64)
}

pub fn char_codes_of(s: &str) -> (r: Vec<i64>)
    ensures
        r@ == char_codes(s@),
{
    let mut r: Vec<i64> = Vec::new();
    let n = s.unicode_len();
    let mut i: usize = 0;
    while i < n
        invariant
            n == s@.len(),
            i <= n,
            r@ == char_codes(s@.subrange(0, i as int)),
        decreases n - i,
    {
        let c = s.get_char(i);
        r.push((c as u32) as i64);
        assert(r@ =~= char_codes(s@.subrange(0, (i + 1) as int)));
        i = i + 1;
    }
    assert(s@.subrange(0, n as int) =~= s@);
    r
}

// ---------------------------------------------------------------------------------------------
// Search
/// The lowercase form of `text` holds `needle`.
pub open spec fn lower_contains(text: Seq<char>, needle: Seq<char>) -> bool {
    has_substring(spec_to_lowercase(text), needle)
}

/// A driver matches a (lowercase) needle when one of its names, its code or its team does.
pub open spec fn driver_matches_text(d: Driver, needle: Seq<char>) -> bool {
    lower_contains(d.first_name@, needle) || lower_contains(d.last_name@, needle)
        || lower_contains(d.name_acronym@, needle) || lower_contains(d.team_name@, needle)
        || lower_contains(d.full_name@, needle) || lower_contains(d.broadcast_name@, needle)
}

pub open spec fn matching(needle: Seq<char>) -> spec_fn(Driver) -> bool {
    |d: Driver| driver_matches_text(d, needle)
}

/// The roster narrowed to the drivers that match the trimmed, lowercased query; the whole
/// roster when the query is blank.
pub open spec fn filtered_roster(roster: Seq<Driver>, query: Seq<char>) -> Seq<Driver> {
    let q = trimmed(query);
    if q.len() == 0 {
        roster
    } else {
        roster.filter(matching(spec_to_lowercase(q)))
    }
}

fn lower_has(text: &str, needle: &str) -> (r: bool)
    ensures
        r == lower_contains(text@, needle@),
{
    let lower = to_lowercase(text);
    contains(lower.as_str(), needle)
}

pub fn driver_matches(driver: &Driver, needle: &str) -> (r: bool)
    ensures
        r == driver_matches_text(*driver, needle@),
{
    lower_has(driver.first_name.as_str(), needle) || lower_has(driver.last_name.as_str(), needle)
        || lower_has(driver.name_acronym.as_str(), needle) || lower_has(
        driver.team_name.as_str(),
        needle,
    ) || lower_has(driver.full_name.as_str(), needle) || lower_has(
        driver.broadcast_name.as_str(),
        needle,
    )
}

pub fn filter_roster(roster: &Vec<Driver>, query: &str) -> (r: Vec<Driver>)
    ensures
        r@ == filtered_roster(roster@, query@),
{
    let q = trim(query);
    if q.unicode_len() == 0 {
        let mut all: Vec<Driver> = Vec::new();
        let mut j: usize = 0;
        while j < roster.len()
            invariant
                j <= roster@.len(),
                all@ == roster@.subrange(0, j as int),
            decreases roster.len() - j,
        {
            all.push(roster[j].duplicate());
            assert(all@ =~= roster@.subrange(0, (j + 1) as int));
            j = j + 1;
        }
        assert(roster@.subrange(0, roster@.len() as int) =~= roster@);
        return all;
    }
    let needle = to_lowercase(q);
    let ghost nv = needle@;
    let mut r: Vec<Driver> = Vec::new();
    let mut i: usize = 0;
    while i < roster.len()
        invariant
            nv == needle@,
            i <= roster@.len(),
            r@ == roster@.subrange(0, i as int).filter(matching(nv)),
        decreases roster.len() - i,
    {
        proof {
            reveal(Seq::filter);
            assert(roster@.subrange(0, (i + 1) as int).drop_last() =~= roster@.subrange(0, i as int));
        }
        if driver_matches(&roster[i], needle.as_str()) {
            r.push(roster[i].duplicate());
        }
        i = i + 1;
    }
    assert(roster@.subrange(0, roster@.len() as int) =~= roster@);
    r
}

// ---------------------------------------------------------------------------------------------
// Sorting
pub open spec fn field_text(d: Driver, field: DriverSortField) -> Seq<char> {
    match field {
        DriverSortField::FirstName => d.first_name@,
        DriverSortField::LastName => d.last_name@,
        DriverSortField::Code => d.name_acronym@,
        DriverSortField::Constructor => d.team_name@,
    }
}

/// A driver's sort key: the lowercased field, compared as text.
pub open spec fn sort_key_of(d: Driver, field: DriverSortField) -> Seq<i64> {
    char_codes(spec_to_lowercase(field_text(d, field)))
}

pub open spec fn driver_keys(drivers: Seq<Driver>, field: DriverSortField) -> Seq<Seq<i64>> {
    drivers.map_values(|d: Driver| sort_key_of(d, field))
}

/// The drivers sorted by the field, ascending or descending; drivers with equal keys keep
/// their order.
pub open spec fn sorted_drivers(drivers: Seq<Driver>, field: DriverSortField, direction: SortDirection) -> Seq<
    Driver,
> {
    arrange(
        drivers,
        stable_order(driver_keys(drivers, field), direction == SortDirection::Desc, drivers.len()),
    )
}

fn sort_key(driver: &Driver, field: DriverSortField) -> (r: Vec<i64>)
    ensures
        r@ == sort_key_of(*driver, field),
{
    let lower = match field {
        DriverSortField::FirstName => to_lowercase(driver.first_name.as_str()),
        DriverSortField::LastName => to_lowercase(driver.last_name.as_str()),
        DriverSortField::Code => to_lowercase(driver.name_acronym.as_str()),
        DriverSortField::Constructor => to_lowercase(driver.team_name.as_str()),
    };
    char_codes_of(lower.as_str())
}

fn sorted_copy(drivers: &Vec<Driver>, field: DriverSortField, direction: SortDirection) -> (r: Vec<
    Driver,
>)
    ensures
        r@ == sorted_drivers(drivers@, field, direction),
{
    let mut keys: Vec<Vec<i64>> = Vec::new();
    let mut i: usize = 0;
    while i < drivers.len()
        invariant
            i <= drivers@.len(),
            keys@.len() == i,
            forall|j: int| 0 <= j < i ==> (#[trigger] keys@[j])@ == sort_key_of(drivers@[j], field),
        decreases drivers.len() - i,
    {
        keys.push(sort_key(&drivers[i], field));
        i = i + 1;
    }
    assert(keys_view(keys@) =~= driver_keys(drivers@, field));
    let desc = match direction {
        SortDirection::Asc => false,
        SortDirection::Desc => true,
    };
    let order = stable_sort_indices(&keys, desc);
    let mut r: Vec<Driver> = Vec::new();
    let mut m: usize = 0;
    while m < order.len()
        invariant
            m <= order@.len(),
            order@.len() == drivers@.len(),
            forall|x: int| 0 <= x < order@.len() ==> (order@[x] as int) < drivers@.len(),
            r@ == arrange(drivers@, order@).subrange(0, m as int),
        decreases order.len() - m,
    {
        r.push(drivers[order[m]].duplicate());
        assert(r@ =~= arrange(drivers@, order@).subrange(0, (m + 1) as int));
        m = m + 1;
    }
    assert(arrange(drivers@, order@).subrange(0, order@.len() as int) =~= arrange(drivers@, order@));
    r
}

/// Sorts the drivers by the field (stable).
pub fn sort_drivers(drivers: &mut Vec<Driver>, field: DriverSortField, direction: SortDirection)
    ensures
        final(drivers)@ == sorted_drivers(old(drivers)@, field, direction),
{
    let sorted = sorted_copy(drivers, field, direction);
    *drivers = sorted;
}

// ---------------------------------------------------------------------------------------------
// Grouping by team
/// The team names of the drivers, each once, in order of first appearance.
pub open spec fn team_names_in(drivers: Seq<Driver>) -> Seq<Seq<char>>
    decreases drivers.len(),
{
    if drivers.len() == 0 {
        seq![]
    } else {
        let rest = team_names_in(drivers.drop_last());
        let t = drivers.last().team_name@;
        if rest.contains(t) {
            rest
        } else {
            rest.push(t)
        }
    }
}

pub open spec fn name_keys(names: Seq<Seq<char>>) -> Seq<Seq<i64>> {
    names.map_values(|n: Seq<char>| char_codes(n))
}

pub open spec fn lower_name_keys(names: Seq<Seq<char>>) -> Seq<Seq<i64>> {
    names.map_values(|n: Seq<char>| char_codes(spec_to_lowercase(n)))
}

/// The team names in text order (as a map keyed by team name lists them).
pub open spec fn teams_by_name(drivers: Seq<Driver>) -> Seq<Seq<char>> {
    let n = team_names_in(drivers);
    arrange(n, stable_order(name_keys(n), false, n.len()))
}

pub open spec fn of_team(name: Seq<char>) -> spec_fn(Driver) -> bool {
    |d: Driver| d.team_name@ == name
}

/// Inside a team, sorting by constructor means sorting by last name.
pub open spec fn within_field(field: DriverSortField) -> DriverSortField {
    if field == DriverSortField::Constructor {
        DriverSortField::LastName
    } else {
        field
    }
}

pub open spec fn team_group(
    drivers: Seq<Driver>,
    name: Seq<char>,
    field: DriverSortField,
    direction: SortDirection,
) -> GroupView {
    (name, sorted_drivers(drivers.filter(of_team(name)), within_field(field), direction))
}

/// One section per team, each sorted inside; the sections ordered by lowercased team name,
/// in reverse only when sorting by constructor, descending.
pub open spec fn team_groups(drivers: Seq<Driver>, field: DriverSortField, direction: SortDirection) -> Seq<
    GroupView,
> {
    let names = teams_by_name(drivers);
    let groups = names.map_values(|name: Seq<char>| team_group(drivers, name, field, direction));
    arrange(
        groups,
        stable_order(
            lower_name_keys(names),
            field == DriverSortField::Constructor && direction == SortDirection::Desc,
            names.len(),
        ),
    )
}

fn distinct_team_names(drivers: &Vec<Driver>) -> (r: Vec<String>)
    ensures
        string_views(r@) == team_names_in(drivers@),
{
    let mut names: Vec<String> = Vec::new();
    let mut i: usize = 0;
    while i < drivers.len()
        invariant
            i <= drivers@.len(),
            string_views(names@) == team_names_in(drivers@.subrange(0, i as int)),
        decreases drivers.len() - i,
    {
        assert(drivers@.subrange(0, (i + 1) as int).drop_last() =~= drivers@.subrange(0, i as int));
        assert(drivers@.subrange(0, (i + 1) as int).last() == drivers@[i as int]);
        let name = &drivers[i].team_name;
        let ghost views = string_views(names@);
        let mut seen = false;
        let mut j: usize = 0;
        while j < names.len()
            invariant
                j <= names@.len(),
                views == string_views(names@),
                seen == exists|x: int| 0 <= x < j && views[x] == name@,
            decreases names.len() - j,
        {
            assert(views[j as int] == names@[j as int]@);
            if names[j] == *name {
                seen = true;
            }
            j = j + 1;
        }
        if !seen {
            names.push(name.clone());
            assert(string_views(names@) =~= views.push(name@));
        }
        i = i + 1;
    }
    assert(drivers@.subrange(0, drivers@.len() as int) =~= drivers@);
    names
}

fn team_members(drivers: &Vec<Driver>, name: &String) -> (r: Vec<Driver>)
    ensures
        r@ == drivers@.filter(of_team(name@)),
{
    let mut r: Vec<Driver> = Vec::new();
    let mut i: usize = 0;
    while i < drivers.len()
        invariant
            i <= drivers@.len(),
            r@ == drivers@.subrange(0, i as int).filter(of_team(name@)),
        decreases drivers.len() - i,
    {
        proof {
            reveal(Seq::filter);
            assert(drivers@.subrange(0, (i + 1) as int).drop_last() =~= drivers@.subrange(0, i as int));
        }
        if drivers[i].team_name == *name {
            r.push(drivers[i].duplicate());
        }
        i = i + 1;
    }
    assert(drivers@.subrange(0, drivers@.len() as int) =~= drivers@);
    r
}

fn text_keys(names: &Vec<String>, lower: bool) -> (r: Vec<Vec<i64>>)
    ensures
        keys_view(r@) == if lower {
            lower_name_keys(string_views(names@))
        } else {
            name_keys(string_views(names@))
        },
{
    let mut keys: Vec<Vec<i64>> = Vec::new();
    let mut i: usize = 0;
    while i < names.len()
        invariant
            i <= names@.len(),
            keys@.len() == i,
            forall|j: int|
                0 <= j < i ==> (#[trigger] keys@[j])@ == if lower {
                    char_codes(spec_to_lowercase(names@[j]@))
                } else {
                    char_codes(names@[j]@)
                },
        decreases names.len() - i,
    {
        if lower {
            let l = to_lowercase(names[i].as_str());
            keys.push(char_codes_of(l.as_str()));
        } else {
            keys.push(char_codes_of(names[i].as_str()));
        }
        i = i + 1;
    }
    if lower {
        assert(keys_view(keys@) =~= lower_name_keys(string_views(names@)));
    } else {
        assert(keys_view(keys@) =~= name_keys(string_views(names@)));
    }
    keys
}

/// The drivers in one section per team (see `team_groups`).
pub fn group_by_team(drivers: &Vec<Driver>, filters: &DriverPickerFilters) -> (r: Vec<
    DriverPickerGroup,
>)
    ensures
        group_views(r@) == team_groups(drivers@, filters.sort_field, filters.sort_direction),
{
    let names = distinct_team_names(drivers);
    let keys = text_keys(&names, false);
    let order = stable_sort_indices(&keys, false);
    assert(keys_view(keys@).len() == keys@.len());
    let mut by_name: Vec<String> = Vec::new();
    let mut m: usize = 0;
    while m < order.len()
        invariant
            m <= order@.len(),
            order@.len() == names@.len(),
            forall|x: int| 0 <= x < order@.len() ==> (order@[x] as int) < names@.len(),
            by_name@.len() == m,
            string_views(by_name@) == arrange(string_views(names@), order@).subrange(0, m as int),
        decreases order.len() - m,
    {
        by_name.push(names[order[m]].clone());
        assert(string_views(by_name@) =~= arrange(string_views(names@), order@).subrange(
            0,
            (m + 1) as int,
        ));
        m = m + 1;
    }
    assert(arrange(string_views(names@), order@).subrange(0, order@.len() as int) =~= arrange(
        string_views(names@),
        order@,
    ));
    let ghost nv = string_views(by_name@);
    assert(nv == teams_by_name(drivers@));
    let within = if filters.sort_field == DriverSortField::Constructor {
        DriverSortField::LastName
    } else {
        filters.sort_field
    };
    let reverse = filters.sort_field == DriverSortField::Constructor && filters.sort_direction
        == SortDirection::Desc;
    let lkeys = text_keys(&by_name, true);
    let order2 = stable_sort_indices(&lkeys, reverse);
    assert(keys_view(lkeys@).len() == lkeys@.len());
    let ghost groups = nv.map_values(
        |name: Seq<char>| team_group(drivers@, name, filters.sort_field, filters.sort_direction),
    );
    let ghost target = team_groups(drivers@, filters.sort_field, filters.sort_direction);
    assert(target == arrange(groups, order2@));
    let mut r: Vec<DriverPickerGroup> = Vec::new();
    let mut k: usize = 0;
    while k < order2.len()
        invariant
            k <= order2@.len(),
            order2@.len() == by_name@.len(),
            forall|x: int| 0 <= x < order2@.len() ==> (order2@[x] as int) < by_name@.len(),
            nv == string_views(by_name@),
            groups == nv.map_values(
                |name: Seq<char>| team_group(drivers@, name, filters.sort_field, filters.sort_direction),
            ),
            target == arrange(groups, order2@),
            within == within_field(filters.sort_field),
            r@.len() == k,
            group_views(r@) == target.subrange(0, k as int),
        decreases order2.len() - k,
    {
        let name = &by_name[order2[k]];
        let mut members = team_members(drivers, name);
        sort_drivers(&mut members, within, filters.sort_direction);
        let group = DriverPickerGroup { team_name: name.clone(), drivers: members };
        let ghost before = r@;
        r.push(group);
        assert(group_views(r@) =~= target.subrange(0, (k + 1) as int)) by {
            assert(r@ == before.push(group));
            assert(group_views(r@)[k as int] == group_view(group));
            assert(nv[order2@[k as int] as int] == name@);
        }
        k = k + 1;
    }
    assert(target.subrange(0, target.len() as int) =~= target);
    r
}

/// What the picker shows for the roster and the filters.
pub open spec fn organized(roster: Seq<Driver>, filters: DriverPickerFilters) -> Seq<GroupView> {
    let f = filtered_roster(roster, filters.search@);
    if filters.group_by_constructor {
        team_groups(f, filters.sort_field, filters.sort_direction)
    } else {
        seq![(Seq::<char>::empty(), sorted_drivers(f, filters.sort_field, filters.sort_direction))]
    }
}

/// The roster narrowed by the search, then in one sorted list or in sorted team sections.
pub fn organize_roster(roster: &Vec<Driver>, filters: &DriverPickerFilters) -> (r: Vec<
    DriverPickerGroup,
>)
    ensures
        group_views(r@) == organized(roster@, *filters),
{
    let filtered = filter_roster(roster, filters.search.as_str());
    if filters.group_by_constructor {
        group_by_team(&filtered, filters)
    } else {
        let mut drivers = filtered;
        sort_drivers(&mut drivers, filters.sort_field, filters.sort_direction);
        let mut r: Vec<DriverPickerGroup> = Vec::new();
        let group = DriverPickerGroup { team_name: String::new(), drivers };
        r.push(group);
        assert(group_views(r@) =~= organized(roster@, *filters));
        r
    }
}

} // verus!

verus! {

/// Sorting the picker's drivers keeps every driver and lists them by the sort field's
/// lowercase text: no driver comes after one whose key goes after its own (ascending), or
/// before it (descending).
pub proof fn law_sorted_drivers_in_key_order(
    drivers: Seq<Driver>,
    field: DriverSortField,
    direction: SortDirection,
)
    requires
        drivers.len() <= usize::MAX,
    ensures
        sorted_drivers(drivers, field, direction).len() == drivers.len(),
        forall|a: int, b: int|
            0 <= a < b < drivers.len() ==> !crate::order::goes_before(
                sort_key_of(sorted_drivers(drivers, field, direction)[b], field),
                sort_key_of(sorted_drivers(drivers, field, direction)[a], field),
                direction == SortDirection::Desc,
            ),
        forall|i: int|
            #![trigger drivers[i]]
            0 <= i < drivers.len() ==> exists|k: int|
                0 <= k < drivers.len() && sorted_drivers(drivers, field, direction)[k] == drivers[i],
{
    let keys = driver_keys(drivers, field);
    let desc = direction == SortDirection::Desc;
    let o = stable_order(keys, desc, drivers.len());
    crate::order::lemma_stable_order_permutes(keys, desc, drivers.len());
    crate::order::lemma_stable_order_sorted(keys, desc, drivers.len());
    let s = sorted_drivers(drivers, field, direction);
    assert forall|a: int, b: int| 0 <= a < b < drivers.len() implies !crate::order::goes_before(
        sort_key_of(s[b], field),
        sort_key_of(s[a], field),
        desc,
    ) by {
        assert(s[a] == drivers[o[a] as int]);
        assert(s[b] == drivers[o[b] as int]);
        assert(keys[o[a] as int] == sort_key_of(s[a], field));
        assert(keys[o[b] as int] == sort_key_of(s[b], field));
    }
    assert forall|i: int| #![trigger drivers[i]] 0 <= i < drivers.len() implies exists|k: int|
        0 <= k < drivers.len() && s[k] == drivers[i] by {
        assert(o.contains(i as usize));
        let k = choose|k: int| 0 <= k < o.len() && o[k] == i as usize;
        assert(s[k] == drivers[i]);
    }
}

} // verus!

verus! {

impl DriverPickerFilters {
    /// Sorting by the field already in use flips the direction; another field sorts ascending.
    /// The search and the grouping stay.
    pub fn choose_sort_field(&mut self, field: DriverSortField)
        ensures
            final(self).sort_field == field,
            final(self).sort_direction == (if old(self).sort_field == field {
                match old(self).sort_direction {
                    SortDirection::Asc => SortDirection::Desc,
                    SortDirection::Desc => SortDirection::Asc,
                }
            } else {
                SortDirection::Asc
            }),
            final(self).search == old(self).search,
            final(self).group_by_constructor == old(self).group_by_constructor,
    {
        if self.sort_field == field {
            self.sort_direction = self.sort_direction.toggle();
        } else {
            self.sort_field = field;
            self.sort_direction = SortDirection::Asc;
        }
    }

    /// Switches between one list and team sections.
    pub fn toggle_grouping(&mut self)
        ensures
            final(self).group_by_constructor == !old(self).group_by_constructor,
            final(self).sort_field == old(self).sort_field,
            final(self).sort_direction == old(self).sort_direction,
            final(self).search == old(self).search,
    {
        self.group_by_constructor = !self.group_by_constructor;
    }
}

} // verus!
