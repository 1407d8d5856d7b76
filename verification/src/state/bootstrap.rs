use vstd::prelude::*;

use crate::text::{append_text, nat_digits, new_text, u64_text};

verus! {

#[derive(Debug, Clone, Copy, PartialEq, Eq, Structural)]
pub enum BootStepId {
    Settings,
    Calendar,
    Drivers,
    Championship,
    Media,
}

#[derive(Debug, Clone, Copy, PartialEq, Eq, Structural)]
pub enum BootStepStatus {
    Pending,
    Running,
    Done,
    Failed,
    Skipped,
}

#[derive(Debug, Clone)]
pub struct BootStep {
    pub id: BootStepId,
    pub label: &'static str,
    pub status: BootStepStatus,
    pub detail: String,
}

/// Progress of the start-up sequence shown on the boot screen.
#[derive(Debug, Clone)]
pub struct BootState {
    pub active: bool,
    pub steps: Vec<BootStep>,
    pub media_total: u32,
    pub media_done: u32,
}

pub open spec fn is_terminal(status: BootStepStatus) -> bool {
    status == BootStepStatus::Done || status == BootStepStatus::Skipped || status
        == BootStepStatus::Failed
}

/// `i` is the first step with `id`.
pub open spec fn first_step(steps: Seq<BootStep>, id: BootStepId, i: int) -> bool {
    0 <= i < steps.len() && steps[i].id == id && forall|j: int|
        0 <= j < i ==> steps[j].id != id
}

pub open spec fn has_step(steps: Seq<BootStep>, id: BootStepId) -> bool {
    exists|i: int| 0 <= i < steps.len() && #[trigger] steps[i].id == id
}

pub open spec fn step_index(steps: Seq<BootStep>, id: BootStepId) -> int {
    choose|i: int| first_step(steps, id, i)
}

/// The step with `id` is there and has finished one way or another.
pub open spec fn step_finished(steps: Seq<BootStep>, id: BootStepId) -> bool {
    has_step(steps, id) && is_terminal(steps[step_index(steps, id)].status)
}

/// The steps after `id`'s step took `status` and `detail`.
pub open spec fn steps_with(
    steps: Seq<BootStep>,
    id: BootStepId,
    status: BootStepStatus,
    detail: Seq<char>,
    new_steps: Seq<BootStep>,
) -> bool {
    let i = step_index(steps, id);
    &&& new_steps.len() == steps.len()
    &&& new_steps[i].id == steps[i].id
    &&& new_steps[i].label == steps[i].label
    &&& new_steps[i].status == status
    &&& new_steps[i].detail@ == detail
    &&& forall|j: int| 0 <= j < steps.len() && j != i ==> #[trigger] new_steps[j] == steps[j]
}

pub open spec fn initial_step(s: BootStep, id: BootStepId, label: Seq<char>) -> bool {
    s.id == id && s.label@ == label && s.status == BootStepStatus::Pending && s.detail@.len() == 0
}

/// The five steps of a fresh boot, in order.
pub open spec fn initial_steps(steps: Seq<BootStep>) -> bool {
    &&& steps.len() == 5
    &&& initial_step(steps[0], BootStepId::Settings, "Settings and pins"@)
    &&& initial_step(steps[1], BootStepId::Calendar, "Season calendar"@)
    &&& initial_step(steps[2], BootStepId::Drivers, "Driver roster"@)
    &&& initial_step(steps[3], BootStepId::Championship, "Championship standings"@)
    &&& initial_step(steps[4], BootStepId::Media, "Flags, logos and portraits"@)
}

pub open spec fn media_progress_text(done: u32, total: u32) -> Seq<char> {
    "Downloading assets ("@ + nat_digits(done as nat) + "/"@ + nat_digits(total as nat) + ")"@
}

/// `i` is the first running step.
pub open spec fn first_running(steps: Seq<BootStep>, i: int) -> bool {
    0 <= i < steps.len() && steps[i].status == BootStepStatus::Running && forall|j: int|
        0 <= j < i ==> steps[j].status != BootStepStatus::Running
}

/// `i` is the last step that has finished.
pub open spec fn last_finished(steps: Seq<BootStep>, i: int) -> bool {
    0 <= i < steps.len() && is_terminal(steps[i].status) && forall|j: int|
        i < j < steps.len() ==> !is_terminal(steps[j].status)
}

pub open spec fn boot_label(steps: Seq<BootStep>) -> Seq<char> {
    if exists|i: int| first_running(steps, i) {
        let s = steps[choose|i: int| first_running(steps, i)];
        if s.detail@.len() == 0 {
            s.label@
        } else {
            s.label@ + " - "@ + s.detail@
        }
    } else if exists|i: int| last_finished(steps, i) {
        steps[choose|i: int| last_finished(steps, i)].detail@
    } else {
        "Starting..."@
    }
}

pub open spec fn boot_ready(steps: Seq<BootStep>) -> bool {
    step_finished(steps, BootStepId::Calendar) && step_finished(steps, BootStepId::Drivers)
        && step_finished(steps, BootStepId::Championship) && step_finished(
        steps,
        BootStepId::Media,
    )
}

fn step(id: BootStepId, label: &'static str) -> (r: BootStep)
    ensures
        initial_step(r, id, label@),
{
    BootStep { id, label, status: BootStepStatus::Pending, detail: String::new() }
}

fn find_step(steps: &Vec<BootStep>, id: BootStepId) -> (r: Option<usize>)
    ensures
        match r {
            Some(i) => first_step(steps@, id, i as int) && step_index(steps@, id) == i,
            None => !has_step(steps@, id),
        },
{
    let mut i: usize = 0;
    while i < steps.len()
        invariant
            i <= steps@.len(),
            forall|j: int| 0 <= j < i ==> #[trigger] steps@[j].id != id,
        decreases steps.len() - i,
    {
        if steps[i].id == id {
            assert(first_step(steps@, id, i as int));
            assert forall|k: int| first_step(steps@, id, k) implies k == i by {
                if k < i {
                } else if k > i {
                    assert(steps@[i as int].id == id);
                }
            }
            return Some(i);
        }
        i = i + 1;
    }
    None
}

impl BootState {
    pub fn new() -> (r: Self)
        ensures
            r.active,
            initial_steps(r.steps@),
            r.media_total == 0,
            r.media_done == 0,
    {
        let mut steps: Vec<BootStep> = Vec::new();
        steps.push(step(BootStepId::Settings, "Settings and pins"));
        steps.push(step(BootStepId::Calendar, "Season calendar"));
        steps.push(step(BootStepId::Drivers, "Driver roster"));
        steps.push(step(BootStepId::Championship, "Championship standings"));
        steps.push(step(BootStepId::Media, "Flags, logos and portraits"));
        BootState { active: true, steps, media_total: 0, media_done: 0 }
    }

    /// The step with `id` (the first one, should there be two).
    pub fn step_mut(&mut self, id: BootStepId) -> (r: &mut BootStep)
        requires
            has_step(old(self).steps@, id),
        ensures
            *r == old(self).steps@[step_index(old(self).steps@, id)],
            final(self).steps@ == old(self).steps@.update(
                step_index(old(self).steps@, id),
                *final(r),
            ),
            final(self).active == old(self).active,
            final(self).media_total == old(self).media_total,
            final(self).media_done == old(self).media_done,
    {
        let i = match find_step(&self.steps, id) {
            Some(i) => i,
            None => {
                proof {
                    let k = choose|k: int| 0 <= k < old(self).steps@.len() && #[trigger] old(
                        self,
                    ).steps@[k].id == id;
                    assert(old(self).steps@[k].id == id);
                }
                unreached()
            },
        };
        &mut self.steps[i]
    }

    /// The status of `id`'s step.
    pub fn step_status(&self, id: BootStepId) -> (r: BootStepStatus)
        requires
            has_step(self.steps@, id),
        ensures
            r == self.steps@[step_index(self.steps@, id)].status,
    {
        proof {
            let k = choose|k: int| 0 <= k < self.steps@.len() && #[trigger] self.steps@[k].id == id;
            lemma_first_exists(self.steps@, id, k);
        }
        match find_step(&self.steps, id) {
            Some(i) => self.steps[i].status,
            None => BootStepStatus::Pending,
        }
    }

    fn set_step(&mut self, id: BootStepId, status: BootStepStatus, detail: String)
        requires
            has_step(old(self).steps@, id),
        ensures
            steps_with(old(self).steps@, id, status, detail@, final(self).steps@),
            final(self).active == old(self).active,
            final(self).media_total == old(self).media_total,
            final(self).media_done == old(self).media_done,
    {
        proof {
            let k = choose|k: int| 0 <= k < old(self).steps@.len() && #[trigger] old(self).steps@[k].id == id;
            lemma_first_exists(old(self).steps@, id, k);
        }
        let step = self.step_mut(id);
        step.status = status;
        step.detail = detail;
    }

    pub fn start_step(&mut self, id: BootStepId, detail: String)
        requires
            has_step(old(self).steps@, id),
        ensures
            steps_with(old(self).steps@, id, BootStepStatus::Running, detail@, final(self).steps@),
            final(self).active == old(self).active,
            final(self).media_total == old(self).media_total,
            final(self).media_done == old(self).media_done,
    {
        self.set_step(id, BootStepStatus::Running, detail);
    }

    pub fn complete_step(&mut self, id: BootStepId, detail: String)
        requires
            has_step(old(self).steps@, id),
        ensures
            steps_with(old(self).steps@, id, BootStepStatus::Done, detail@, final(self).steps@),
            final(self).active == old(self).active,
            final(self).media_total == old(self).media_total,
            final(self).media_done == old(self).media_done,
    {
        self.set_step(id, BootStepStatus::Done, detail);
    }

    pub fn fail_step(&mut self, id: BootStepId, detail: String)
        requires
            has_step(old(self).steps@, id),
        ensures
            steps_with(old(self).steps@, id, BootStepStatus::Failed, detail@, final(self).steps@),
            final(self).active == old(self).active,
            final(self).media_total == old(self).media_total,
            final(self).media_done == old(self).media_done,
    {
        self.set_step(id, BootStepStatus::Failed, detail);
    }

    pub fn skip_step(&mut self, id: BootStepId, detail: String)
        requires
            has_step(old(self).steps@, id),
        ensures
            steps_with(old(self).steps@, id, BootStepStatus::Skipped, detail@, final(self).steps@),
            final(self).active == old(self).active,
            final(self).media_total == old(self).media_total,
            final(self).media_done == old(self).media_done,
    {
        self.set_step(id, BootStepStatus::Skipped, detail);
    }

    /// Starts counting `total` asset downloads; with nothing to download the media step is
    /// done at once.
    pub fn begin_media(&mut self, total: u32)
        requires
            has_step(old(self).steps@, BootStepId::Media),
        ensures
            final(self).media_total == total,
            final(self).media_done == 0,
            final(self).active == old(self).active,
            total == 0 ==> steps_with(
                old(self).steps@,
                BootStepId::Media,
                BootStepStatus::Done,
                "Nothing to download"@,
                final(self).steps@,
            ),
            total > 0 ==> steps_with(
                old(self).steps@,
                BootStepId::Media,
                BootStepStatus::Running,
                media_progress_text(0, total),
                final(self).steps@,
            ),
    {
        self.media_total = total;
        self.media_done = 0;
        if total == 0 {
            self.complete_step(BootStepId::Media, new_text("Nothing to download"));
            return ;
        }
        let mut detail = new_text("Downloading assets (");
        append_text(&mut detail, u64_text(0).as_str());
        append_text(&mut detail, "/");
        append_text(&mut detail, u64_text(total as u64).as_str());
        append_text(&mut detail, ")");
        assert(detail@ =~= media_progress_text(0, total));
        self.start_step(BootStepId::Media, detail);
    }

    /// One more asset arrived: counts it (never past the total) and completes the media step
    /// when all have arrived. With no download under way nothing changes.
    pub fn media_loaded(&mut self)
        requires
            has_step(old(self).steps@, BootStepId::Media),
            old(self).media_done < u32::MAX,
        ensures
            final(self).active == old(self).active,
            final(self).media_total == old(self).media_total,
            old(self).media_total == 0 ==> *final(self) == *old(self),
            old(self).media_total > 0 ==> final(self).media_done == if old(self).media_done + 1
                < old(self).media_total {
                old(self).media_done + 1
            } else {
                old(self).media_total as int
            },
            old(self).media_total > 0 && final(self).media_done == old(self).media_total
                ==> steps_with(
                old(self).steps@,
                BootStepId::Media,
                BootStepStatus::Done,
                "Assets ready"@,
                final(self).steps@,
            ),
            old(self).media_total > 0 && final(self).media_done < old(self).media_total
                ==> steps_with(
                old(self).steps@,
                BootStepId::Media,
                BootStepStatus::Running,
                media_progress_text(final(self).media_done, old(self).media_total),
                final(self).steps@,
            ),
    {
        if self.media_total == 0 {
            return ;
        }
        self.media_done = if self.media_done + 1 < self.media_total {
            self.media_done + 1
        } else {
            self.media_total
        };
        if self.media_done >= self.media_total {
            self.complete_step(BootStepId::Media, new_text("Assets ready"));
        } else {
            let mut detail = new_text("Downloading assets (");
            append_text(&mut detail, u64_text(self.media_done as u64).as_str());
            append_text(&mut detail, "/");
            append_text(&mut detail, u64_text(self.media_total as u64).as_str());
            append_text(&mut detail, ")");
            assert(detail@ =~= media_progress_text(self.media_done, self.media_total));
            self.start_step(BootStepId::Media, detail);
        }
    }

    /// The line under the boot progress bar.
    pub fn current_label(&self) -> (r: String)
        ensures
            r@ == boot_label(self.steps@),
    {
        let mut i: usize = 0;
        while i < self.steps.len()
            invariant
                i <= self.steps@.len(),
                forall|j: int|
                    0 <= j < i ==> #[trigger] self.steps@[j].status != BootStepStatus::Running,
            decreases self.steps.len() - i,
        {
            if self.steps[i].status == BootStepStatus::Running {
                let ghost steps = self.steps@;
                assert(first_running(steps, i as int));
                assert forall|k: int| first_running(steps, k) implies k == i by {
                    if k < i {
                    } else if k > i {
                        assert(steps[i as int].status == BootStepStatus::Running);
                    }
                }
                let s = &self.steps[i];
                if s.detail.unicode_len() == 0 {
                    return new_text(s.label);
                }
                let mut text = new_text(s.label);
                append_text(&mut text, " - ");
                append_text(&mut text, s.detail.as_str());
                return text;
            }
            i = i + 1;
        }
        assert(!exists|k: int| first_running(self.steps@, k));
        let mut k: usize = self.steps.len();
        while k > 0
            invariant
                k <= self.steps@.len(),
                forall|j: int|
                    0 <= j < self.steps@.len() ==> #[trigger] self.steps@[j].status
                        != BootStepStatus::Running,
                forall|j: int| k <= j < self.steps@.len() ==> !is_terminal(#[trigger] self.steps@[j].status),
            decreases k,
        {
            let st = self.steps[k - 1].status;
            if st == BootStepStatus::Done || st == BootStepStatus::Skipped || st
                == BootStepStatus::Failed {
                let ghost steps = self.steps@;
                assert(last_finished(steps, k - 1));
                assert forall|m: int| last_finished(steps, m) implies m == k - 1 by {
                    if m > k - 1 {
                    } else if m < k - 1 {
                        assert(is_terminal(steps[k - 1].status));
                    }
                }
                assert(!exists|i: int| first_running(steps, i));
                assert(boot_label(steps) == steps[k - 1].detail@);
                return self.steps[k - 1].detail.clone();
            }
            k = k - 1;
        }
        new_text("Starting...")
    }

    fn finished(&self, id: BootStepId) -> (r: bool)
        ensures
            r == step_finished(self.steps@, id),
    {
        match find_step(&self.steps, id) {
            Some(i) => {
                let st = self.steps[i].status;
                st == BootStepStatus::Done || st == BootStepStatus::Skipped || st
                    == BootStepStatus::Failed
            },
            None => false,
        }
    }

    /// Leaves the boot screen once the calendar, drivers, championship and media steps have
    /// all finished (done, skipped or failed).
    pub fn try_finish(&mut self)
        ensures
            final(self).steps@ == old(self).steps@,
            final(self).media_total == old(self).media_total,
            final(self).media_done == old(self).media_done,
            final(self).active == (old(self).active && !boot_ready(old(self).steps@)),
    {
        if !self.active {
            return ;
        }
        let core_ready = self.finished(BootStepId::Calendar) && self.finished(BootStepId::Drivers)
            && self.finished(BootStepId::Championship);
        let media_ready = self.finished(BootStepId::Media);
        if core_ready && media_ready {
            self.active = false;
        }
    }

    /// Back to a fresh boot.
    pub fn reset(&mut self)
        ensures
            final(self).active,
            initial_steps(final(self).steps@),
            final(self).media_total == 0,
            final(self).media_done == 0,
    {
        *self = Self::new();
    }
}

/// A fresh boot has every step, so each step operation can find its step.
pub proof fn law_fresh_boot_has_every_step(steps: Seq<BootStep>, id: BootStepId)
    requires
        initial_steps(steps),
    ensures
        has_step(steps, id),
{
    match id {
        BootStepId::Settings => assert(steps[0].id == id),
        BootStepId::Calendar => assert(steps[1].id == id),
        BootStepId::Drivers => assert(steps[2].id == id),
        BootStepId::Championship => assert(steps[3].id == id),
        BootStepId::Media => assert(steps[4].id == id),
    }
}

/// Updating one step keeps every step id where it was, so all steps stay findable.
pub proof fn law_step_update_keeps_steps(
    steps: Seq<BootStep>,
    id: BootStepId,
    status: BootStepStatus,
    detail: Seq<char>,
    new_steps: Seq<BootStep>,
    other: BootStepId,
)
    requires
        has_step(steps, id),
        steps_with(steps, id, status, detail, new_steps),
        has_step(steps, other),
    ensures
        has_step(new_steps, other),
        step_index(new_steps, other) == step_index(steps, other),
{
    let i = step_index(steps, id);
    let k0 = choose|k: int| 0 <= k < steps.len() && #[trigger] steps[k].id == id;
    assert(exists|k: int| first_step(steps, id, k)) by {
        lemma_first_exists(steps, id, k0);
    }
    let k1 = choose|k: int| 0 <= k < steps.len() && #[trigger] steps[k].id == other;
    lemma_first_exists(steps, other, k1);
    let o = step_index(steps, other);
    assert(new_steps[o].id == other) by {
        if o != i {
            assert(new_steps[o] == steps[o]);
        }
    }
    assert(first_step(new_steps, other, o)) by {
        assert forall|j: int| 0 <= j < o implies new_steps[j].id != other by {
            if j != i {
                assert(new_steps[j] == steps[j]);
            }
        }
    }
    assert forall|k: int| first_step(new_steps, other, k) implies k == o by {
        if k < o {
        } else if k > o {
            assert(new_steps[o].id == other);
        }
    }
}

proof fn lemma_first_exists(steps: Seq<BootStep>, id: BootStepId, k: int)
    requires
        0 <= k < steps.len(),
        steps[k].id == id,
    ensures
        exists|i: int| first_step(steps, id, i),
        first_step(steps, id, step_index(steps, id)),
    decreases k,
{
    if exists|j: int| 0 <= j < k && steps[j].id == id {
        let j = choose|j: int| 0 <= j < k && steps[j].id == id;
        lemma_first_exists(steps, id, j);
    } else {
        assert(first_step(steps, id, k));
    }
}

/// Once the boot screen is left it stays left until `reset`.
pub proof fn law_finish_is_final(old_active: bool, steps: Seq<BootStep>, new_active: bool)
    requires
        new_active == (old_active && !boot_ready(steps)),
        !old_active,
    ensures
        !new_active,
{
}

} // verus!
