use vstd::prelude::*;

use crate::domain::calendar::RaceTriplet;
use crate::domain::circuit_assets::{circuit_image_text, circuit_image_url};
use crate::domain::driver_assets::{
    driver_flag_url, flag_iso2, flag_url_text, logo_slug, logo_url_text, opt_string, team_logo_url,
};
use crate::records::{Driver, Meeting};
use crate::text::{new_text, spec_to_lowercase, text_eq};

verus! {

pub open spec fn text_views(v: Seq<String>) -> Seq<Seq<char>> {
    v.map_values(|s: String| s@)
}

pub open spec fn distinct_texts(v: Seq<Seq<char>>) -> bool {
    forall|a: int, b: int| 0 <= a < b < v.len() ==> v[a] != v[b]
}

/// The flag image of a driver, if the driver's country can be told.
pub open spec fn flag_of(d: Driver) -> Option<Seq<char>> {
    match flag_iso2(d.country_code@, d.driver_number, d.name_acronym@) {
        Some(iso) => Some(flag_url_text(iso)),
        None => None,
    }
}

/// The logo image of a driver's team, if the team is known.
pub open spec fn logo_of(d: Driver) -> Option<Seq<char>> {
    match logo_slug(spec_to_lowercase(d.team_name@)) {
        Some(slug) => Some(logo_url_text(slug, 256, 256)),
        None => None,
    }
}

/// `u` is an image of a driver of the roster: a headshot (`headshot`) or an icon (a flag or a
/// team logo).
pub open spec fn roster_image(roster: Seq<Driver>, headshot: bool, u: Seq<char>) -> bool {
    exists|i: int|
        0 <= i < roster.len() && if headshot {
            (#[trigger] roster[i]).headshot_url@ == u && u.len() > 0
        } else {
            flag_of(roster[i]) == Some(u) || logo_of(roster[i]) == Some(u)
        }
}

/// Appends `url` unless the list holds it already.
fn push_unique(list: &mut Vec<String>, url: String)
    requires
        distinct_texts(text_views(old(list)@)),
    ensures
        distinct_texts(text_views(final(list)@)),
        forall|u: Seq<char>|
            text_views(final(list)@).contains(u) <==> (text_views(old(list)@).contains(u) || u == url@),
        text_views(old(list)@).contains(url@) ==> final(list)@ == old(list)@,
        !text_views(old(list)@).contains(url@) ==> text_views(final(list)@) == text_views(
            old(list)@,
        ).push(url@),
{
    let mut i: usize = 0;
    while i < list.len()
        invariant
            i <= list@.len(),
            list@ == old(list)@,
            distinct_texts(text_views(list@)),
            forall|j: int| 0 <= j < i ==> list@[j]@ != url@,
        decreases list.len() - i,
    {
        if text_eq(list[i].as_str(), url.as_str()) {
            assert(text_views(list@)[i as int] == url@);
            return;
        }
        i = i + 1;
    }
    proof {
        assert forall|j: int| 0 <= j < text_views(list@).len() implies text_views(list@)[j] != url@ by {
            assert(text_views(list@)[j] == list@[j]@);
        }
    }
    let ghost before = list@;
    let ghost uv = url@;
    list.push(url);
    assert(text_views(list@) =~= text_views(before).push(uv));
    assert forall|a: int, b: int| 0 <= a < b < text_views(list@).len() implies text_views(list@)[a]
        != text_views(list@)[b] by {
        if b == before.len() {
            assert(text_views(before)[a] == text_views(list@)[a]);
        }
    }
    assert forall|u: Seq<char>| text_views(list@).contains(u) <==> (text_views(before).contains(u) || u == uv) by {
        if text_views(list@).contains(u) {
            let k = choose|k: int| 0 <= k < text_views(list@).len() && text_views(list@)[k] == u;
            if k < before.len() {
                assert(text_views(before)[k] == u);
            }
        }
        if text_views(before).contains(u) {
            let k = choose|k: int| 0 <= k < text_views(before).len() && text_views(before)[k] == u;
            assert(text_views(list@)[k] == u);
        }
        if u == uv {
            assert(text_views(list@)[before.len() as int] == u);
        }
    }
}

/// The images the roster needs: headshots (non-empty URLs) and icons (flags and team logos),
/// each URL listed once.
pub fn driver_media_urls(roster: &Vec<Driver>) -> (r: (Vec<String>, Vec<String>))
    ensures
        distinct_texts(text_views(r.0@)),
        distinct_texts(text_views(r.1@)),
        forall|u: Seq<char>| text_views(r.0@).contains(u) <==> roster_image(roster@, true, u),
        forall|u: Seq<char>| text_views(r.1@).contains(u) <==> roster_image(roster@, false, u),
{
    let mut headshots: Vec<String> = Vec::new();
    let mut icons: Vec<String> = Vec::new();
    let mut i: usize = 0;
    while i < roster.len()
        invariant
            i <= roster@.len(),
            distinct_texts(text_views(headshots@)),
            distinct_texts(text_views(icons@)),
            forall|u: Seq<char>|
                text_views(headshots@).contains(u) <==> roster_image(roster@.subrange(0, i as int), true, u),
            forall|u: Seq<char>|
                text_views(icons@).contains(u) <==> roster_image(roster@.subrange(0, i as int), false, u),
        decreases roster.len() - i,
    {
        let d = &roster[i];
        let ghost pre = roster@.subrange(0, i as int);
        let ghost cur = roster@.subrange(0, i + 1);
        if d.headshot_url.unicode_len() > 0 {
            push_unique(&mut headshots, new_text(d.headshot_url.as_str()));
        }
        let flag = driver_flag_url(d.country_code.as_str(), d.driver_number, d.name_acronym.as_str());
        match &flag {
            Some(url) => push_unique(&mut icons, new_text(url.as_str())),
            None => {},
        }
        let logo = team_logo_url(d.team_name.as_str());
        match &logo {
            Some(url) => push_unique(&mut icons, new_text(url.as_str())),
            None => {},
        }
        proof {
            assert(cur[i as int] == roster@[i as int]);
            assert(opt_string(flag) == flag_of(roster@[i as int]));
            assert(opt_string(logo) == logo_of(roster@[i as int]));
            assert forall|u: Seq<char>| roster_image(cur, true, u) <==> (roster_image(pre, true, u) || (u
                == roster@[i as int].headshot_url@ && u.len() > 0)) by {
                if roster_image(cur, true, u) {
                    let k = choose|k: int| 0 <= k < cur.len() && (#[trigger] cur[k]).headshot_url@ == u && u.len() > 0;
                    if k < i {
                        assert(pre[k] == cur[k]);
                    }
                }
                if roster_image(pre, true, u) {
                    let k = choose|k: int| 0 <= k < pre.len() && (#[trigger] pre[k]).headshot_url@ == u && u.len() > 0;
                    assert(cur[k] == pre[k]);
                }
            }
            assert forall|u: Seq<char>| roster_image(cur, false, u) <==> (roster_image(pre, false, u) || flag_of(
                roster@[i as int],
            ) == Some(u) || logo_of(roster@[i as int]) == Some(u)) by {
                if roster_image(cur, false, u) {
                    let k = choose|k: int| 0 <= k < cur.len() && (flag_of(#[trigger] cur[k]) == Some(u) || logo_of(cur[k]) == Some(u));
                    if k < i {
                        assert(pre[k] == cur[k]);
                    }
                }
                if roster_image(pre, false, u) {
                    let k = choose|k: int| 0 <= k < pre.len() && (flag_of(#[trigger] pre[k]) == Some(u) || logo_of(pre[k]) == Some(u));
                    assert(cur[k] == pre[k]);
                }
            }
        }
        i = i + 1;
    }
    proof {
        assert(roster@.subrange(0, roster@.len() as int) =~= roster@);
    }
    (headshots, icons)
}

pub open spec fn meeting_images(m: Meeting) -> Set<Seq<char>> {
    match circuit_image_text(m) {
        Some(u) => set![m.country_flag@, u],
        None => set![m.country_flag@],
    }
}

pub open spec fn previous_images(previous: Option<Meeting>) -> Set<Seq<char>> {
    match previous {
        Some(p) => meeting_images(p),
        None => Set::empty(),
    }
}

/// The images the calendar needs: the country flag and circuit image of the previous, current
/// and upcoming meetings.
pub open spec fn triplet_images(t: RaceTriplet) -> Set<Seq<char>> {
    previous_images(t.previous) + meeting_images(t.current) + meeting_images(t.upcoming)
}

fn push_meeting_images(urls: &mut Vec<String>, m: &Meeting)
    requires
        distinct_texts(text_views(old(urls)@)),
    ensures
        distinct_texts(text_views(final(urls)@)),
        forall|u: Seq<char>|
            #![trigger text_views(final(urls)@).contains(u)]
            text_views(final(urls)@).contains(u) <==> (text_views(old(urls)@).contains(u)
                || meeting_images(*m).contains(u)),
{
    push_unique(urls, new_text(m.country_flag.as_str()));
    match circuit_image_url(m) {
        Some(u) => {
            push_unique(urls, new_text(u));
        },
        None => {},
    }
}

/// The images the calendar needs: the country flag and circuit image of the previous, current
/// and upcoming meetings, each URL once.
pub fn calendar_media_urls(triplet: &RaceTriplet) -> (r: Vec<String>)
    ensures
        distinct_texts(text_views(r@)),
        forall|u: Seq<char>| text_views(r@).contains(u) <==> triplet_images(*triplet).contains(u),
{
    let mut urls: Vec<String> = Vec::new();
    assert(text_views(urls@) =~= Seq::<Seq<char>>::empty());
    let ghost first: Set<Seq<char>> = previous_images(triplet.previous);
    match &triplet.previous {
        Some(p) => push_meeting_images(&mut urls, p),
        None => {},
    }
    let ghost s1 = text_views(urls@);
    assert forall|u: Seq<char>| s1.contains(u) <==> first.contains(u) by {}
    push_meeting_images(&mut urls, &triplet.current);
    let ghost s2 = text_views(urls@);
    assert(forall|u: Seq<char>| #[trigger] s2.contains(u) <==> (s1.contains(u) || meeting_images(triplet.current).contains(u)));
    push_meeting_images(&mut urls, &triplet.upcoming);
    let ghost s3 = text_views(urls@);
    assert(forall|u: Seq<char>| #[trigger] s3.contains(u) <==> (s2.contains(u) || meeting_images(triplet.upcoming).contains(u)));
    assert forall|u: Seq<char>| s3.contains(u) <==> triplet_images(*triplet).contains(u) by {
        assert(s3.contains(u) <==> (s2.contains(u) || meeting_images(triplet.upcoming).contains(u)));
        assert(s2.contains(u) <==> (s1.contains(u) || meeting_images(triplet.current).contains(u)));
        assert(triplet_images(*triplet).contains(u) <==> (first.contains(u) || meeting_images(
            triplet.current,
        ).contains(u) || meeting_images(triplet.upcoming).contains(u)));
    }
    urls
}

pub open spec fn wanted(u: Seq<char>, loaded: bool, failed: bool) -> bool {
    u.len() > 0 && !loaded && !failed
}

/// The images still to fetch: non-empty URLs neither loaded nor known to have failed (the two
/// flags are given for each URL, in order).
pub fn urls_to_fetch(urls: &Vec<String>, loaded: &Vec<bool>, failed: &Vec<bool>) -> (r: Vec<String>)
    requires
        loaded@.len() == urls@.len(),
        failed@.len() == urls@.len(),
    ensures
        text_views(r@) == Seq::new(urls@.len(), |i: int| i).filter(
            |i: int| wanted(urls@[i]@, loaded@[i], failed@[i]),
        ).map_values(|i: int| urls@[i]@),
{
    let ghost idx = Seq::new(urls@.len(), |i: int| i);
    let ghost keep = |i: int| wanted(urls@[i]@, loaded@[i], failed@[i]);
    let mut r: Vec<String> = Vec::new();
    let mut i: usize = 0;
    while i < urls.len()
        invariant
            i <= urls@.len(),
            loaded@.len() == urls@.len(),
            failed@.len() == urls@.len(),
            idx == Seq::new(urls@.len(), |i: int| i),
            keep == (|i: int| wanted(urls@[i]@, loaded@[i], failed@[i])),
            text_views(r@) == idx.subrange(0, i as int).filter(keep).map_values(|i: int| urls@[i]@),
        decreases urls.len() - i,
    {
        proof {
            reveal(Seq::filter);
            assert(idx.subrange(0, (i + 1) as int).drop_last() =~= idx.subrange(0, i as int));
            assert(idx.subrange(0, (i + 1) as int).last() == i as int);
        }
        let ghost before = r@;
        if urls[i].unicode_len() > 0 && !loaded[i] && !failed[i] {
            r.push(new_text(urls[i].as_str()));
            assert(text_views(r@) =~= text_views(before).push(urls@[i as int]@));
        }
        i = i + 1;
    }
    assert(idx.subrange(0, urls@.len() as int) =~= idx);
    r
}

} // verus!
