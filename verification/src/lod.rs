//! Level-of-detail levels and the per-frame culling statistics.
use vstd::prelude::*;

verus! {

/// Level of detail, from full detail close to the camera to not drawn at all.
#[derive(Debug, Clone, Copy, PartialEq, Eq, Structural)]
pub enum LODLevel {
    High,
    Medium,
    Low,
    VeryLow,
    Culled,
}

impl LODLevel {
    /// Everything but `Culled` is drawn.
    pub fn should_render(&self) -> (r: bool)
        ensures
            r == (*self != LODLevel::Culled),
    {
        *self != LODLevel::Culled
    }
}

/// Counters of one frame's level-of-detail decisions.
#[derive(Debug, Clone, Copy)]
pub struct LODStats {
    pub total_objects: usize,
    pub visible_objects: usize,
    pub culled_by_distance: usize,
    pub culled_by_frustum: usize,
    pub high_lod: usize,
    pub medium_lod: usize,
    pub low_lod: usize,
    pub very_low_lod: usize,
}

impl Default for LODStats {
    fn default() -> (s: Self)
        ensures
            s.total_objects == 0 && s.visible_objects == 0 && s.culled_by_distance == 0
                && s.culled_by_frustum == 0 && s.high_lod == 0 && s.medium_lod == 0 && s.low_lod == 0
                && s.very_low_lod == 0,
            balanced(s),
    {
        LODStats {
            total_objects: 0,
            visible_objects: 0,
            culled_by_distance: 0,
            culled_by_frustum: 0,
            high_lod: 0,
            medium_lod: 0,
            low_lod: 0,
            very_low_lod: 0,
        }
    }
}

impl LODStats {
    /// Whether recording an object with this outcome overflows no counter:
    /// the total, and the one counter (and for a drawn level, the visible
    /// count) that the outcome raises.
    pub open spec fn has_room(&self, in_frustum: bool, distance_lod: LODLevel) -> bool {
        &&& self.total_objects < usize::MAX
        &&& !in_frustum ==> self.culled_by_frustum < usize::MAX
        &&& in_frustum ==> match distance_lod {
            LODLevel::Culled => self.culled_by_distance < usize::MAX,
            LODLevel::High => self.high_lod < usize::MAX && self.visible_objects < usize::MAX,
            LODLevel::Medium => self.medium_lod < usize::MAX && self.visible_objects < usize::MAX,
            LODLevel::Low => self.low_lod < usize::MAX && self.visible_objects < usize::MAX,
            LODLevel::VeryLow => self.very_low_lod < usize::MAX && self.visible_objects < usize::MAX,
        }
    }

    /// The counters after recording one object (see [`LODStats::record`]).
    pub open spec fn recorded(self, in_frustum: bool, distance_lod: LODLevel) -> LODStats {
        let visible = in_frustum && distance_lod != LODLevel::Culled;
        LODStats {
            total_objects: (self.total_objects + 1) as usize,
            visible_objects: (self.visible_objects + if visible { 1int } else { 0int }) as usize,
            culled_by_distance: (self.culled_by_distance + if in_frustum && distance_lod
                == LODLevel::Culled {
                1int
            } else {
                0int
            }) as usize,
            culled_by_frustum: (self.culled_by_frustum + if in_frustum { 0int } else { 1int }) as usize,
            high_lod: (self.high_lod + if in_frustum && distance_lod == LODLevel::High {
                1int
            } else {
                0int
            }) as usize,
            medium_lod: (self.medium_lod + if in_frustum && distance_lod == LODLevel::Medium {
                1int
            } else {
                0int
            }) as usize,
            low_lod: (self.low_lod + if in_frustum && distance_lod == LODLevel::Low {
                1int
            } else {
                0int
            }) as usize,
            very_low_lod: (self.very_low_lod + if in_frustum && distance_lod == LODLevel::VeryLow {
                1int
            } else {
                0int
            }) as usize,
        }
    }

    /// Counts one object and returns its level: `Culled` when it lies
    /// outside the view frustum, otherwise the level its distance gives.
    /// Every object counts in the total; a frustum-culled one counts as
    /// culled by frustum, a distance-culled one as culled by distance, and
    /// any other counts as visible and under its level.
    pub fn record(&mut self, in_frustum: bool, distance_lod: LODLevel) -> (r: LODLevel)
        requires
            old(self).has_room(in_frustum, distance_lod),
        ensures
            r == (if in_frustum {
                distance_lod
            } else {
                LODLevel::Culled
            }),
            *final(self) == old(self).recorded(in_frustum, distance_lod),
    {
        self.total_objects += 1;
        if !in_frustum {
            self.culled_by_frustum += 1;
            return LODLevel::Culled;
        }
        match distance_lod {
            LODLevel::High => self.high_lod += 1,
            LODLevel::Medium => self.medium_lod += 1,
            LODLevel::Low => self.low_lod += 1,
            LODLevel::VeryLow => self.very_low_lod += 1,
            LODLevel::Culled => {
                self.culled_by_distance += 1;
                return distance_lod;
            },
        }
        self.visible_objects += 1;
        distance_lod
    }
}

/// The counters agree with one another: every object counted is visible,
/// culled by distance or culled by frustum, and every visible one has
/// exactly one detail level. True of fresh counters and kept by `record`.
pub open spec fn balanced(stats: LODStats) -> bool {
    &&& stats.total_objects == stats.visible_objects + stats.culled_by_distance
        + stats.culled_by_frustum
    &&& stats.visible_objects == stats.high_lod + stats.medium_lod + stats.low_lod
        + stats.very_low_lod
}

/// Recording an object (where no counter it touches is at its limit) keeps
/// the counters balanced and counts the object exactly once: the total
/// grows by one; the object is culled exactly when one of the two culled
/// counters grows; it is culled by frustum exactly when it was outside the
/// frustum; otherwise the level returned is the one its distance gave.
pub proof fn law_lod_stats_balance(before: LODStats, in_frustum: bool, lod: LODLevel)
    requires
        before.has_room(in_frustum, lod),
    ensures
        ({
            let after = before.recorded(in_frustum, lod);
            let r = if in_frustum {
                lod
            } else {
                LODLevel::Culled
            };
            &&& balanced(before) ==> balanced(after)
            &&& after.total_objects == before.total_objects + 1
            &&& after.total_objects - before.total_objects == (after.visible_objects
                - before.visible_objects) + (after.culled_by_distance - before.culled_by_distance) + (
            after.culled_by_frustum - before.culled_by_frustum)
            &&& after.visible_objects - before.visible_objects == (after.high_lod - before.high_lod)
                + (after.medium_lod - before.medium_lod) + (after.low_lod - before.low_lod) + (
            after.very_low_lod - before.very_low_lod)
            &&& (r == LODLevel::Culled) == (after.culled_by_frustum > before.culled_by_frustum
                || after.culled_by_distance > before.culled_by_distance)
            &&& (after.culled_by_frustum > before.culled_by_frustum) == !in_frustum
            &&& in_frustum ==> r == lod
            &&& (after.visible_objects == before.visible_objects + 1) == (in_frustum && lod
                != LODLevel::Culled)
        }),
{
}

/// Balanced counters have room to record any object as long as the total
/// is below its limit: every other counter is at most the total.
pub proof fn law_lod_stats_room(stats: LODStats, in_frustum: bool, lod: LODLevel)
    requires
        balanced(stats),
        stats.total_objects < usize::MAX,
    ensures
        stats.has_room(in_frustum, lod),
{
}

/// The level-of-detail state an object keeps between frames: its current
/// level, whether it was drawn last frame, and for how many frames in a row
/// it has not been drawn. (Its position and radius are kept by the caller.)
#[derive(Debug, Clone, Copy, PartialEq, Eq, Structural)]
pub struct LODVisibility {
    pub current_lod: LODLevel,
    pub was_visible_last_frame: bool,
    pub frames_invisible: u32,
}

impl LODVisibility {
    /// A new object starts at full detail, not yet seen.
    pub fn new() -> (v: Self)
        ensures
            v == (LODVisibility {
                current_lod: LODLevel::High,
                was_visible_last_frame: false,
                frames_invisible: 0,
            }),
    {
        LODVisibility { current_lod: LODLevel::High, was_visible_last_frame: false, frames_invisible: 0 }
    }

    /// The state after a frame in which the object got level `lod`.
    pub open spec fn updated(self, lod: LODLevel) -> LODVisibility {
        if lod != LODLevel::Culled {
            LODVisibility { current_lod: lod, was_visible_last_frame: true, frames_invisible: 0 }
        } else {
            LODVisibility {
                current_lod: lod,
                was_visible_last_frame: false,
                frames_invisible: (self.frames_invisible + 1) as u32,
            }
        }
    }

    /// Records this frame's level and returns whether the object is drawn.
    pub fn update(&mut self, lod: LODLevel) -> (visible: bool)
        requires
            lod == LODLevel::Culled ==> old(self).frames_invisible < u32::MAX,
        ensures
            visible == (lod != LODLevel::Culled),
            *final(self) == old(self).updated(lod),
    {
        self.current_lod = lod;
        let is_visible = lod.should_render();
        if is_visible {
            self.was_visible_last_frame = true;
            self.frames_invisible = 0;
        } else {
            self.was_visible_last_frame = false;
            self.frames_invisible += 1;
        }
        is_visible
    }

    /// Physics keeps running while the object was drawn last frame or has
    /// been hidden for fewer than 60 frames (one second at 60 fps).
    pub fn should_simulate_physics(&self) -> (r: bool)
        ensures
            r == (self.was_visible_last_frame || self.frames_invisible < 60),
    {
        self.was_visible_last_frame || self.frames_invisible < 60
    }
}

/// The state after `n` frames in a row without drawing.
pub open spec fn hidden_frames(v: LODVisibility, n: nat) -> LODVisibility
    decreases n,
{
    if n == 0 {
        v
    } else {
        hidden_frames(v, (n - 1) as nat).updated(LODLevel::Culled)
    }
}

/// A drawn object keeps its physics running; once hidden it keeps running
/// for 59 more frames and stops at the 60th hidden frame in a row.
pub proof fn law_lod_physics_grace(v: LODVisibility, lod: LODLevel, n: nat)
    requires
        lod != LODLevel::Culled,
        n <= 60,
    ensures
        hidden_frames(v.updated(lod), n).frames_invisible == n,
        (hidden_frames(v.updated(lod), n).was_visible_last_frame || hidden_frames(
            v.updated(lod),
            n,
        ).frames_invisible < 60) <==> n < 60,
    decreases n,
{
    if n > 0 {
        law_lod_physics_grace(v, lod, (n - 1) as nat);
    }
}

/// An update records the level it is given, whatever it is: the object's
/// current level becomes that level; it counts as drawn exactly when the
/// level is not `Culled`; a drawn frame resets the hidden-frame count and
/// a culled one adds one to it.
pub proof fn law_lod_update_records_level(v: LODVisibility, lod: LODLevel)
    requires
        lod == LODLevel::Culled ==> v.frames_invisible < u32::MAX,
    ensures
        v.updated(lod).current_lod == lod,
        v.updated(lod).was_visible_last_frame == (lod != LODLevel::Culled),
        lod != LODLevel::Culled ==> v.updated(lod).frames_invisible == 0,
        lod == LODLevel::Culled ==> v.updated(lod).frames_invisible == v.frames_invisible + 1,
        v.updated(lod).updated(lod).current_lod == lod,
{
}

} // verus!
