use vstd::prelude::*;

use crate::state::bootstrap::{
    has_step, media_progress_text, steps_with, BootState, BootStepId, BootStepStatus,
};
use crate::state::load::LoadState;
use crate::text::{append_text, new_text, u64_text};

verus! {

/// What the boot screen reads of a load.
#[derive(Debug, Clone, Copy, PartialEq, Eq, Structural)]
pub enum LoadKind {
    Loading,
    Ready { stale: bool },
    FailedWithCache,
    Failed,
}

pub open spec fn kind_of<T>(l: LoadState<T>) -> LoadKind {
    match l {
        LoadState::Loading => LoadKind::Loading,
        LoadState::Ready(loaded) => LoadKind::Ready { stale: loaded.stale },
        LoadState::Error { cached: Some(_), .. } => LoadKind::FailedWithCache,
        LoadState::Error { cached: None, .. } => LoadKind::Failed,
    }
}

pub fn load_kind<T>(l: &LoadState<T>) -> (r: LoadKind)
    ensures
        r == kind_of(*l),
{
    match l {
        LoadState::Loading => LoadKind::Loading,
        LoadState::Ready(loaded) => LoadKind::Ready { stale: loaded.stale },
        LoadState::Error { cached: Some(_), .. } => LoadKind::FailedWithCache,
        LoadState::Error { cached: None, .. } => LoadKind::Failed,
    }
}

/// The step of the calendar or the roster: fetching while a fetch runs (refreshing the cache
/// when the data shown is stale), done once loaded, failed otherwise. `cached_text` and
/// `failed_text` name what failed.
pub open spec fn fetch_step(
    k: LoadKind,
    refreshing: bool,
    refresh_text: Seq<char>,
    cached_text: Seq<char>,
    failed_text: Seq<char>,
) -> (BootStepStatus, Seq<char>) {
    match k {
        LoadKind::Loading => (BootStepStatus::Running, "Fetching from OpenF1..."@),
        LoadKind::Failed => if refreshing {
            (BootStepStatus::Running, "Fetching from OpenF1..."@)
        } else {
            (BootStepStatus::Failed, failed_text)
        },
        LoadKind::Ready { stale } => if refreshing {
            (BootStepStatus::Running, if stale { refresh_text } else { "Fetching from OpenF1..."@ })
        } else {
            (BootStepStatus::Done, "Loaded from cache"@)
        },
        LoadKind::FailedWithCache => (BootStepStatus::Failed, cached_text),
    }
}

pub open spec fn calendar_step(k: LoadKind, refreshing: bool) -> (BootStepStatus, Seq<char>) {
    fetch_step(
        k,
        refreshing,
        "Refreshing cached calendar..."@,
        "Using cached calendar"@,
        "Could not load calendar"@,
    )
}

pub open spec fn drivers_step(k: LoadKind, refreshing: bool) -> (BootStepStatus, Seq<char>) {
    fetch_step(
        k,
        refreshing,
        "Refreshing cached roster..."@,
        "Using cached roster"@,
        "Could not load drivers"@,
    )
}

/// The championship step: fetching while a fetch runs, done once loaded (from the cache when
/// stale), waiting for the calendar or to start, failed otherwise.
pub open spec fn championship_step(k: LoadKind, refreshing: bool, has_calendar: bool) -> (
    BootStepStatus,
    Seq<char>,
) {
    match k {
        LoadKind::Ready { stale } => if refreshing {
            (BootStepStatus::Running, "Fetching from OpenF1..."@)
        } else {
            (BootStepStatus::Done, if stale { "Loaded from cache"@ } else { "Up to date"@ })
        },
        LoadKind::Loading => if refreshing {
            (BootStepStatus::Running, "Fetching from OpenF1..."@)
        } else {
            (
                BootStepStatus::Running,
                if has_calendar { "Waiting to start..."@ } else { "Waiting for calendar..."@ },
            )
        },
        LoadKind::FailedWithCache => (BootStepStatus::Failed, "Using cached standings"@),
        LoadKind::Failed => (BootStepStatus::Failed, "Could not load standings"@),
    }
}

/// The boot screen after `id`'s step took `step`, while the boot screen is up (it is left
/// alone once the boot is over).
pub open spec fn synced(old: BootState, new: BootState, id: BootStepId, step: (BootStepStatus, Seq<char>)) -> bool {
    if old.active {
        &&& steps_with(old.steps@, id, step.0, step.1, new.steps@)
        &&& new.active == old.active
        &&& new.media_total == old.media_total
        &&& new.media_done == old.media_done
    } else {
        new == old
    }
}

fn set_boot_step(boot: &mut BootState, id: BootStepId, status: BootStepStatus, detail: &str)
    requires
        has_step(old(boot).steps@, id),
        status != BootStepStatus::Pending,
    ensures
        steps_with(old(boot).steps@, id, status, detail@, final(boot).steps@),
        final(boot).active == old(boot).active,
        final(boot).media_total == old(boot).media_total,
        final(boot).media_done == old(boot).media_done,
{
    match status {
        BootStepStatus::Running => boot.start_step(id, new_text(detail)),
        BootStepStatus::Done => boot.complete_step(id, new_text(detail)),
        BootStepStatus::Failed => boot.fail_step(id, new_text(detail)),
        BootStepStatus::Skipped => boot.skip_step(id, new_text(detail)),
        BootStepStatus::Pending => {},
    }
}

fn fetch_step_exec(
    k: LoadKind,
    refreshing: bool,
    refresh_text: &'static str,
    cached_text: &'static str,
    failed_text: &'static str,
) -> (r: (BootStepStatus, &'static str))
    ensures
        (r.0, r.1@) == fetch_step(k, refreshing, refresh_text@, cached_text@, failed_text@),
{
    match k {
        LoadKind::Loading => (BootStepStatus::Running, "Fetching from OpenF1..."),
        LoadKind::Failed => if refreshing {
            (BootStepStatus::Running, "Fetching from OpenF1...")
        } else {
            (BootStepStatus::Failed, failed_text)
        },
        LoadKind::Ready { stale } => if refreshing {
            (BootStepStatus::Running, if stale { refresh_text } else { "Fetching from OpenF1..." })
        } else {
            (BootStepStatus::Done, "Loaded from cache")
        },
        LoadKind::FailedWithCache => (BootStepStatus::Failed, cached_text),
    }
}

/// Shows on the boot screen where the loading of the calendar stands.
pub fn sync_boot_calendar<T>(boot: &mut BootState, load: &LoadState<T>, refreshing: bool)
    requires
        has_step(old(boot).steps@, BootStepId::Calendar),
    ensures
        synced(*old(boot), *final(boot), BootStepId::Calendar, calendar_step(kind_of(*load), refreshing)),
{
    if !boot.active {
        return;
    }
    let step = fetch_step_exec(
        load_kind(load),
        refreshing,
        "Refreshing cached calendar...",
        "Using cached calendar",
        "Could not load calendar",
    );
    set_boot_step(boot, BootStepId::Calendar, step.0, step.1);
}

/// Shows on the boot screen where the loading of the driver roster stands.
pub fn sync_boot_drivers<T>(boot: &mut BootState, load: &LoadState<T>, refreshing: bool)
    requires
        has_step(old(boot).steps@, BootStepId::Drivers),
    ensures
        synced(*old(boot), *final(boot), BootStepId::Drivers, drivers_step(kind_of(*load), refreshing)),
{
    if !boot.active {
        return;
    }
    let step = fetch_step_exec(
        load_kind(load),
        refreshing,
        "Refreshing cached roster...",
        "Using cached roster",
        "Could not load drivers",
    );
    set_boot_step(boot, BootStepId::Drivers, step.0, step.1);
}

/// Shows on the boot screen where the loading of the championship stands.
pub fn sync_boot_championship<T>(
    boot: &mut BootState,
    load: &LoadState<T>,
    refreshing: bool,
    has_calendar: bool,
)
    requires
        has_step(old(boot).steps@, BootStepId::Championship),
    ensures
        synced(
            *old(boot),
            *final(boot),
            BootStepId::Championship,
            championship_step(kind_of(*load), refreshing, has_calendar),
        ),
{
    if !boot.active {
        return;
    }
    let step: (BootStepStatus, &str) = match load_kind(load) {
        LoadKind::Ready { stale } => if refreshing {
            (BootStepStatus::Running, "Fetching from OpenF1...")
        } else {
            (BootStepStatus::Done, if stale { "Loaded from cache" } else { "Up to date" })
        },
        LoadKind::Loading => if refreshing {
            (BootStepStatus::Running, "Fetching from OpenF1...")
        } else {
            (BootStepStatus::Running, if has_calendar { "Waiting to start..." } else { "Waiting for calendar..." })
        },
        LoadKind::FailedWithCache => (BootStepStatus::Failed, "Using cached standings"),
        LoadKind::Failed => (BootStepStatus::Failed, "Could not load standings"),
    };
    set_boot_step(boot, BootStepId::Championship, step.0, step.1);
}

/// Counts `count` more asset downloads on the boot screen: the first batch starts the count,
/// a later one adds to it and shows the progress.
pub fn register_boot_media_batch(boot: &mut BootState, count: u32)
    requires
        has_step(old(boot).steps@, BootStepId::Media),
        old(boot).media_total + count <= u32::MAX,
    ensures
        !old(boot).active || count == 0 ==> *final(boot) == *old(boot),
        old(boot).active && count > 0 ==> {
            &&& final(boot).active == old(boot).active
            &&& final(boot).media_total == old(boot).media_total + count
            &&& final(boot).media_done == (if old(boot).media_total == 0 {
                0
            } else {
                old(boot).media_done as int
            })
            &&& steps_with(
                old(boot).steps@,
                BootStepId::Media,
                BootStepStatus::Running,
                media_progress_text(final(boot).media_done, final(boot).media_total),
                final(boot).steps@,
            )
        },
{
    if !boot.active || count == 0 {
        return;
    }
    if boot.media_total == 0 {
        boot.begin_media(count);
    } else {
        boot.media_total = boot.media_total + count;
        let mut detail = new_text("Downloading assets (");
        append_text(&mut detail, u64_text(boot.media_done as u64).as_str());
        append_text(&mut detail, "/");
        append_text(&mut detail, u64_text(boot.media_total as u64).as_str());
        append_text(&mut detail, ")");
        assert(detail@ =~= media_progress_text(boot.media_done, boot.media_total));
        boot.start_step(BootStepId::Media, detail);
    }
}

/// With the boot screen up and nothing asked of the media step, marks it done: nothing to
/// download.
pub fn finalize_boot_media_step(boot: &mut BootState)
    requires
        has_step(old(boot).steps@, BootStepId::Media),
    ensures
        old(boot).active && old(boot).steps@[crate::state::bootstrap::step_index(
            old(boot).steps@,
            BootStepId::Media,
        )].status == BootStepStatus::Pending ==> synced(
            *old(boot),
            *final(boot),
            BootStepId::Media,
            (BootStepStatus::Done, "Nothing to download"@),
        ),
        !(old(boot).active && old(boot).steps@[crate::state::bootstrap::step_index(
            old(boot).steps@,
            BootStepId::Media,
        )].status == BootStepStatus::Pending) ==> *final(boot) == *old(boot),
{
    if !boot.active {
        return;
    }
    if boot.step_status(BootStepId::Media) == BootStepStatus::Pending {
        boot.complete_step(BootStepId::Media, new_text("Nothing to download"));
    }
}

} // verus!
