//! Animation effects: per-target effect lists keyed by an identifier, with
//! progress and completion derived from the clock on read.

use vstd::prelude::*;
use crate::color::Color;
use crate::recency::elapsed_ms;
use crate::strutil::str_eq;

verus! {

/// Animation effect types.
#[derive(Debug, Clone, Copy, PartialEq, Eq, Structural)]
pub enum EffectType {
    /// Sweep animation from left to right
    Sweep,
    /// Pulse/breathing effect
    Pulse,
    /// Fade in animation
    FadeIn,
    /// Fade out animation
    FadeOut,
    /// Flash highlight
    Flash,
}

/// Active animation effect: its kind, when it started, how long it runs,
/// and what it applies to.
#[derive(Debug)]
pub struct Effect {
    pub effect_type: EffectType,
    pub start_ms: u64,
    pub duration_ms: u64,
    pub target_id: String,
}

/// Progress of an effect at `now`, in permille of its duration, capped at
/// one; a zero-length effect is complete from the start.
pub open spec fn effect_progress(e: Effect, now: u64) -> int {
    if e.duration_ms == 0 {
        1000
    } else {
        let p = elapsed_ms(e.start_ms, now) * 1000 / (e.duration_ms as int);
        if p < 1000 {
            p
        } else {
            1000
        }
    }
}

impl Effect {
    pub fn new(effect_type: EffectType, target_id: String, duration_ms: u64, now_ms: u64) -> (r:
        Effect)
        ensures
            r.effect_type == effect_type,
            r.target_id == target_id,
            r.duration_ms == duration_ms,
            r.start_ms == now_ms,
    {
        Effect { effect_type, start_ms: now_ms, duration_ms, target_id }
    }

    /// Get the progress of the effect at `now`, in permille.
    pub fn progress(&self, now: u64) -> (r: u64)
        ensures
            r == effect_progress(*self, now),
            r <= 1000,
    {
        if self.duration_ms == 0 {
            return 1000;
        }
        let elapsed: u64 = if now >= self.start_ms {
            now - self.start_ms
        } else {
            0
        };
        let wide: u128 = elapsed as u128 * 1000 / self.duration_ms as u128;
        if wide >= 1000 {
            1000
        } else {
            wide as u64
        }
    }

    /// Check if the effect has completed at `now`: its whole duration has
    /// elapsed.
    pub fn is_complete(&self, now: u64) -> (r: bool)
        ensures
            r == (elapsed_ms(self.start_ms, now) >= self.duration_ms),
    {
        let elapsed: u64 = if now >= self.start_ms {
            now - self.start_ms
        } else {
            0
        };
        elapsed >= self.duration_ms
    }
}

/// The effects attached to one target.
#[derive(Debug)]
pub struct EffectEntry {
    pub target: String,
    pub effects: Vec<Effect>,
}

/// The pairs that an entry sequence denotes: each target's path view with
/// its effects.
pub open spec fn em_view(s: Seq<EffectEntry>) -> Seq<(Seq<char>, Seq<Effect>)> {
    s.map_values(|e: EffectEntry| (e.target@, e.effects@))
}

/// Index of the pair for a target, if any.
pub open spec fn first_target(v: Seq<(Seq<char>, Seq<Effect>)>, t: Seq<char>) -> Option<int>
    decreases v.len(),
{
    if v.len() == 0 {
        None
    } else if v[0].0 == t {
        Some(0int)
    } else {
        match first_target(v.drop_first(), t) {
            Some(i) => Some(i + 1),
            None => None,
        }
    }
}

/// The pair sequence with the pair for a target removed, when one is
/// there.
pub open spec fn remove_target(v: Seq<(Seq<char>, Seq<Effect>)>, t: Seq<char>) -> Seq<
    (Seq<char>, Seq<Effect>),
> {
    match first_target(v, t) {
        Some(i) => v.remove(i),
        None => v,
    }
}

/// The effects still running at `now`: completed ones drop out, in order.
pub open spec fn keep_effects(es: Seq<Effect>, now: u64) -> Seq<Effect>
    decreases es.len(),
{
    if es.len() == 0 {
        Seq::empty()
    } else {
        let prev = keep_effects(es.drop_last(), now);
        if elapsed_ms(es.last().start_ms, now) >= es.last().duration_ms {
            prev
        } else {
            prev.push(es.last())
        }
    }
}

/// The pairs left after a cleanup at `now`: each target keeps its still
/// running effects, and targets with none left drop out, in order.
pub open spec fn cleanup_pairs(v: Seq<(Seq<char>, Seq<Effect>)>, now: u64) -> Seq<
    (Seq<char>, Seq<Effect>),
>
    decreases v.len(),
{
    if v.len() == 0 {
        Seq::empty()
    } else {
        let prev = cleanup_pairs(v.drop_last(), now);
        let still = keep_effects(v.last().1, now);
        if still.len() > 0 {
            prev.push((v.last().0, still))
        } else {
            prev
        }
    }
}

/// A scan that stopped at `k` determines the first pair for a target.
proof fn lemma_first_target_from_scan(v: Seq<(Seq<char>, Seq<Effect>)>, t: Seq<char>, k: int)
    requires
        0 <= k <= v.len(),
        forall|kk: int| 0 <= kk < k ==> #[trigger] v[kk].0 != t,
        k == v.len() || v[k].0 == t,
    ensures
        first_target(v, t) == if k == v.len() {
            Option::<int>::None
        } else {
            Option::<int>::Some(k)
        },
    decreases v.len(),
{
    if v.len() == 0 {
    } else if v[0].0 == t {
        assert(k == 0);
    } else {
        assert(forall|kk: int| 0 <= kk < k - 1 ==> #[trigger] v.drop_first()[kk].0 != t);
        lemma_first_target_from_scan(v.drop_first(), t, k - 1);
    }
}

/// Visual state calculated from active effects, each channel in permille.
#[derive(Debug, Clone, Copy, PartialEq, Eq, Structural)]
pub struct VisualState {
    pub sweep_position: Option<u64>,
    pub brightness: Option<u64>,
    pub opacity: Option<u64>,
    pub flash_intensity: Option<u64>,
}

/// The visual state with no channel set.
pub open spec fn empty_visual_state() -> VisualState {
    VisualState { sweep_position: None, brightness: None, opacity: None, flash_intensity: None }
}

impl Default for VisualState {
    fn default() -> (r: VisualState)
        ensures
            r == empty_visual_state(),
    {
        VisualState {
            sweep_position: None,
            brightness: None,
            opacity: None,
            flash_intensity: None,
        }
    }
}

/// The brightness of a pulse at `p` permille of its run: two oscillations
/// whose amplitude decays linearly to zero.
pub open spec fn pulse_channel(p: int) -> int {
    (crate::color::sine_permille((p * 2) % 1000) + 1000) / 2 * (1000 - p) / 1000
}

/// One effect's contribution to the visual state at `now`.
pub open spec fn apply_effect(st: VisualState, e: Effect, now: u64) -> VisualState {
    let p = effect_progress(e, now);
    match e.effect_type {
        EffectType::Sweep => VisualState { sweep_position: Some(p as u64), ..st },
        EffectType::Pulse => VisualState { brightness: Some(pulse_channel(p) as u64), ..st },
        EffectType::FadeIn => VisualState { opacity: Some(p as u64), ..st },
        EffectType::FadeOut => VisualState { opacity: Some((1000 - p) as u64), ..st },
        EffectType::Flash => VisualState { flash_intensity: Some((1000 - p) as u64), ..st },
    }
}

/// The combined visual state of a list of effects at `now`: each effect
/// applied in order.
pub open spec fn visual_state_spec(es: Seq<Effect>, now: u64) -> VisualState
    decreases es.len(),
{
    if es.len() == 0 {
        empty_visual_state()
    } else {
        apply_effect(visual_state_spec(es.drop_last(), now), es.last(), now)
    }
}

/// The interpolation factor the visual state asks of the background: the
/// strongest of the brightness and half the flash intensity.
pub open spec fn bg_factor_spec(vs: VisualState) -> int {
    let b = match vs.brightness {
        Some(v) => v as int,
        None => 0,
    };
    let fl = match vs.flash_intensity {
        Some(v) => v as int / 2,
        None => 0,
    };
    if b >= fl {
        b
    } else {
        fl
    }
}

impl VisualState {
    /// Calculate the background color for this visual state: the base
    /// moved towards the highlight by the strongest of the brightness and
    /// half the flash intensity.
    pub fn calculate_bg_color(&self, base: Color, highlight: Color) -> (r: Color)
        ensures
            r == crate::color::interpolate_color_spec(base, highlight, bg_factor_spec(*self)),
    {
        let mut factor: u64 = 0;
        match self.brightness {
            Some(v) => {
                factor = v;
            },
            None => {},
        }
        match self.flash_intensity {
            Some(v) => {
                if v / 2 > factor {
                    factor = v / 2;
                }
            },
            None => {},
        }
        crate::color::interpolate_color(base, highlight, factor)
    }
}

/// Manages animation effects, at most one entry per target.
#[derive(Debug)]
pub struct EffectManager {
    pub entries: Vec<EffectEntry>,
}

impl EffectManager {
    /// At most one entry per target.
    pub open spec fn wf(&self) -> bool {
        forall|i: int, j: int|
            0 <= i < j < self.entries@.len() ==> self.entries@[i].target@
                != self.entries@[j].target@
    }

    /// The entries as target/effects pairs.
    pub open spec fn view_pairs(&self) -> Seq<(Seq<char>, Seq<Effect>)> {
        em_view(self.entries@)
    }

    pub fn new() -> (r: EffectManager)
        ensures
            r.wf(),
            r.view_pairs() == Seq::<(Seq<char>, Seq<Effect>)>::empty(),
    {
        let r = EffectManager { entries: Vec::new() };
        proof {
            assert(r.view_pairs() =~= Seq::<(Seq<char>, Seq<Effect>)>::empty());
        }
        r
    }

    /// Index of the entry for a target, if any.
    fn find_entry(&self, target_id: &str) -> (r: Option<usize>)
        ensures
            match r {
                Some(i) => i < self.entries@.len() && self.entries@[i as int].target@ == target_id@
                    && forall|kk: int|
                    0 <= kk < i ==> #[trigger] self.entries@[kk].target@ != target_id@,
                None => forall|kk: int|
                    0 <= kk < self.entries@.len() ==> #[trigger] self.entries@[kk].target@
                        != target_id@,
            },
    {
        let mut i: usize = 0;
        loop
            invariant
                0 <= i <= self.entries@.len(),
                forall|kk: int| 0 <= kk < i ==> #[trigger] self.entries@[kk].target@ != target_id@,
            decreases self.entries@.len() - i,
        {
            if i == self.entries.len() {
                return None;
            }
            if str_eq(self.entries[i].target.as_str(), target_id) {
                return Some(i);
            }
            i = i + 1;
        }
    }

    /// Add a new effect for a target: appended to the target's effects
    /// when an entry exists, in a fresh entry otherwise.
    pub fn add_effect(&mut self, target_id: &str, effect: Effect)
        requires
            old(self).wf(),
        ensures
            final(self).wf(),
            match first_target(old(self).view_pairs(), target_id@) {
                Some(i) => final(self).view_pairs() == old(self).view_pairs().update(
                    i,
                    (target_id@, old(self).view_pairs()[i].1.push(effect)),
                ),
                None => final(self).view_pairs() == old(self).view_pairs().push(
                    (target_id@, seq![effect]),
                ),
            },
    {
        let ghost old_pairs = self.view_pairs();
        match self.find_entry(target_id) {
            Some(i) => {
                proof {
                    lemma_first_target_from_scan(old_pairs, target_id@, i as int);
                }
                self.entries[i].effects.push(effect);
                proof {
                    assert(self.view_pairs() =~= old_pairs.update(
                        i as int,
                        (target_id@, old_pairs[i as int].1.push(effect)),
                    ));
                }
            },
            None => {
                proof {
                    lemma_first_target_from_scan(old_pairs, target_id@, old_pairs.len() as int);
                }
                let mut effects: Vec<Effect> = Vec::new();
                effects.push(effect);
                let entry = EffectEntry {
                    target: crate::strutil::str_to_string(target_id),
                    effects,
                };
                self.entries.push(entry);
                proof {
                    assert(self.view_pairs() =~= old_pairs.push((target_id@, seq![effect])));
                    assert(self.entries@.drop_last() =~= old(self).entries@);
                }
            },
        }
    }

    /// Drop the entry for a target, when one is there.
    fn remove_entry(&mut self, target_id: &str)
        requires
            old(self).wf(),
        ensures
            final(self).wf(),
            final(self).view_pairs() == remove_target(old(self).view_pairs(), target_id@),
            forall|kk: int|
                0 <= kk < final(self).view_pairs().len()
                    ==> #[trigger] final(self).view_pairs()[kk].0 != target_id@,
    {
        let ghost old_pairs = self.view_pairs();
        match self.find_entry(target_id) {
            Some(i) => {
                proof {
                    lemma_first_target_from_scan(old_pairs, target_id@, i as int);
                }
                self.entries.remove(i);
                proof {
                    assert(self.view_pairs() =~= old_pairs.remove(i as int));
                    let s = old(self).entries@;
                    let cur = self.entries@;
                    assert forall|a: int, b: int| 0 <= a < b < cur.len() implies cur[a].target@
                        != cur[b].target@ by {
                        if b < i {
                            assert(cur[a] == s[a] && cur[b] == s[b]);
                        } else if a < i {
                            assert(cur[a] == s[a] && cur[b] == s[b + 1]);
                        } else {
                            assert(cur[a] == s[a + 1] && cur[b] == s[b + 1]);
                        }
                    }
                    assert forall|kk: int| 0 <= kk < cur.len() implies cur[kk].target@
                        != target_id@ by {
                        if kk < i {
                            assert(cur[kk] == s[kk]);
                        } else {
                            assert(cur[kk] == s[kk + 1]);
                        }
                    }
                }
            },
            None => {
                proof {
                    lemma_first_target_from_scan(old_pairs, target_id@, old_pairs.len() as int);
                }
            },
        }
    }

    /// Trigger the file-change animation: any prior effects for the path
    /// are replaced by a sweep, a pulse and a flash starting at `now`.
    pub fn trigger_file_change(&mut self, file_path: &str, now: u64)
        requires
            old(self).wf(),
        ensures
            final(self).wf(),
            final(self).view_pairs().len() == remove_target(
                old(self).view_pairs(),
                file_path@,
            ).len() + 1,
            final(self).view_pairs().drop_last() == remove_target(
                old(self).view_pairs(),
                file_path@,
            ),
            final(self).view_pairs().last().0 == file_path@,
            ({
                let es = final(self).view_pairs().last().1;
                &&& es.len() == 3
                &&& es[0].effect_type == EffectType::Sweep && es[0].duration_ms == 300
                &&& es[1].effect_type == EffectType::Pulse && es[1].duration_ms == 500
                &&& es[2].effect_type == EffectType::Flash && es[2].duration_ms == 800
                &&& forall|k: int|
                    0 <= k < 3 ==> (#[trigger] es[k].start_ms) == now && es[k].target_id@
                        == file_path@
            }),
    {
        self.remove_entry(file_path);
        let mut effects: Vec<Effect> = Vec::new();
        effects.push(
            Effect::new(EffectType::Sweep, crate::strutil::str_to_string(file_path), 300, now),
        );
        effects.push(
            Effect::new(EffectType::Pulse, crate::strutil::str_to_string(file_path), 500, now),
        );
        effects.push(
            Effect::new(EffectType::Flash, crate::strutil::str_to_string(file_path), 800, now),
        );
        let ghost mid = self.entries@;
        let entry = EffectEntry { target: crate::strutil::str_to_string(file_path), effects };
        self.entries.push(entry);
        proof {
            assert(self.entries@.drop_last() =~= mid);
            assert(self.view_pairs().drop_last() =~= em_view(mid));
            assert forall|a: int, b: int| 0 <= a < b < self.entries@.len() implies self.entries@[a].target@
                != self.entries@[b].target@ by {
                if b == self.entries@.len() - 1 {
                    assert(self.entries@[a] == mid[a]);
                    assert(em_view(mid)[a].0 == mid[a].target@);
                } else {
                    assert(self.entries@[a] == mid[a] && self.entries@[b] == mid[b]);
                }
            }
        }
    }

    /// Trigger the new-file animation: any prior effects for the path are
    /// replaced by a fade-in starting at `now`.
    pub fn trigger_new_file(&mut self, file_path: &str, now: u64)
        requires
            old(self).wf(),
        ensures
            final(self).wf(),
            final(self).view_pairs().len() == remove_target(
                old(self).view_pairs(),
                file_path@,
            ).len() + 1,
            final(self).view_pairs().drop_last() == remove_target(
                old(self).view_pairs(),
                file_path@,
            ),
            final(self).view_pairs().last().0 == file_path@,
            ({
                let es = final(self).view_pairs().last().1;
                &&& es.len() == 1
                &&& es[0].effect_type == EffectType::FadeIn && es[0].duration_ms == 500
                &&& es[0].start_ms == now && es[0].target_id@ == file_path@
            }),
    {
        self.remove_entry(file_path);
        let mut effects: Vec<Effect> = Vec::new();
        effects.push(
            Effect::new(EffectType::FadeIn, crate::strutil::str_to_string(file_path), 500, now),
        );
        let ghost mid = self.entries@;
        let entry = EffectEntry { target: crate::strutil::str_to_string(file_path), effects };
        self.entries.push(entry);
        proof {
            assert(self.entries@.drop_last() =~= mid);
            assert(self.view_pairs().drop_last() =~= em_view(mid));
            assert forall|a: int, b: int| 0 <= a < b < self.entries@.len() implies self.entries@[a].target@
                != self.entries@[b].target@ by {
                if b == self.entries@.len() - 1 {
                    assert(self.entries@[a] == mid[a]);
                    assert(em_view(mid)[a].0 == mid[a].target@);
                } else {
                    assert(self.entries@[a] == mid[a] && self.entries@[b] == mid[b]);
                }
            }
        }
    }

    /// Trigger the file-deletion animation: any prior effects for the
    /// path are replaced by a fade-out starting at `now`.
    pub fn trigger_file_delete(&mut self, file_path: &str, now: u64)
        requires
            old(self).wf(),
        ensures
            final(self).wf(),
            final(self).view_pairs().len() == remove_target(
                old(self).view_pairs(),
                file_path@,
            ).len() + 1,
            final(self).view_pairs().drop_last() == remove_target(
                old(self).view_pairs(),
                file_path@,
            ),
            final(self).view_pairs().last().0 == file_path@,
            ({
                let es = final(self).view_pairs().last().1;
                &&& es.len() == 1
                &&& es[0].effect_type == EffectType::FadeOut && es[0].duration_ms == 300
                &&& es[0].start_ms == now && es[0].target_id@ == file_path@
            }),
    {
        self.remove_entry(file_path);
        let mut effects: Vec<Effect> = Vec::new();
        effects.push(
            Effect::new(EffectType::FadeOut, crate::strutil::str_to_string(file_path), 300, now),
        );
        let ghost mid = self.entries@;
        let entry = EffectEntry { target: crate::strutil::str_to_string(file_path), effects };
        self.entries.push(entry);
        proof {
            assert(self.entries@.drop_last() =~= mid);
            assert(self.view_pairs().drop_last() =~= em_view(mid));
            assert forall|a: int, b: int| 0 <= a < b < self.entries@.len() implies self.entries@[a].target@
                != self.entries@[b].target@ by {
                if b == self.entries@.len() - 1 {
                    assert(self.entries@[a] == mid[a]);
                    assert(em_view(mid)[a].0 == mid[a].target@);
                } else {
                    assert(self.entries@[a] == mid[a] && self.entries@[b] == mid[b]);
                }
            }
        }
    }

    /// Clean up completed effects: every effect whose duration has fully
    /// elapsed at `now` is dropped, and targets left with no effects are
    /// dropped with them.
    pub fn cleanup(&mut self, now: u64)
        requires
            old(self).wf(),
        ensures
            final(self).wf(),
            final(self).view_pairs() == cleanup_pairs(old(self).view_pairs(), now),
    {
        let ghost orig = self.entries@;
        let ghost total: int = orig.len() as int;
        let mut kept: Vec<EffectEntry> = Vec::new();
        proof {
            assert(em_view(orig.take(0)) =~= Seq::<(Seq<char>, Seq<Effect>)>::empty());
            assert(em_view(kept@) =~= Seq::<(Seq<char>, Seq<Effect>)>::empty());
        }
        while self.entries.len() > 0
            invariant
                orig.len() == total,
                self.entries@.len() <= total,
                self.entries@ =~= orig.skip(total - self.entries@.len() as int),
                em_view(kept@) == cleanup_pairs(
                    em_view(orig.take(total - self.entries@.len() as int)),
                    now,
                ),
                forall|i: int, j: int|
                    0 <= i < j < orig.len() ==> orig[i].target@ != orig[j].target@,
                forall|a: int, b: int|
                    0 <= a < b < kept@.len() ==> kept@[a].target@ != kept@[b].target@,
                forall|k: int|
                    0 <= k < kept@.len() ==> exists|j: int|
                        0 <= j < total - self.entries@.len() as int && orig[j].target@
                            == #[trigger] kept@[k].target@,
            decreases self.entries@.len(),
        {
            let ghost done = total - self.entries@.len() as int;
            let ghost kept0 = kept@;
            let mut entry = self.entries.remove(0);
            proof {
                assert(entry == orig[done]);
                assert(self.entries@ =~= orig.skip(done + 1));
                assert(orig.take(done + 1).drop_last() =~= orig.take(done));
                assert(orig.take(done + 1).last() == orig[done]);
                assert(em_view(orig.take(done + 1)).drop_last() =~= em_view(orig.take(done)));
                assert(em_view(orig.take(done + 1)).last() == (
                    orig[done].target@,
                    orig[done].effects@,
                ));
            }
            let ghost eff_orig = entry.effects@;
            let ghost etarget = entry.target@;
            let ghost etotal: int = eff_orig.len() as int;
            let mut live: Vec<Effect> = Vec::new();
            proof {
                assert(keep_effects(eff_orig.take(0), now) =~= Seq::<Effect>::empty());
                assert(live@ =~= Seq::<Effect>::empty());
            }
            while entry.effects.len() > 0
                invariant
                    eff_orig.len() == etotal,
                    entry.effects@.len() <= etotal,
                    entry.effects@ =~= eff_orig.skip(etotal - entry.effects@.len() as int),
                    entry.target@ == etarget,
                    live@ == keep_effects(eff_orig.take(etotal - entry.effects@.len() as int), now),
                decreases entry.effects@.len(),
            {
                let ghost edone = etotal - entry.effects@.len() as int;
                let e = entry.effects.remove(0);
                proof {
                    assert(e == eff_orig[edone]);
                    assert(entry.effects@ =~= eff_orig.skip(edone + 1));
                    assert(eff_orig.take(edone + 1).drop_last() =~= eff_orig.take(edone));
                    assert(eff_orig.take(edone + 1).last() == eff_orig[edone]);
                }
                if !e.is_complete(now) {
                    live.push(e);
                }
            }
            proof {
                assert(eff_orig.take(etotal) =~= eff_orig);
            }
            if live.len() > 0 {
                kept.push(EffectEntry { target: entry.target, effects: live });
                proof {
                    assert(kept@.drop_last() =~= kept0);
                    assert(em_view(kept@).drop_last() =~= em_view(kept0));
                    assert(em_view(kept@).last() == (etarget, keep_effects(eff_orig, now)));
                    assert(em_view(kept@) =~= em_view(kept0).push(
                        (etarget, keep_effects(eff_orig, now)),
                    ));
                    assert forall|a: int, b: int| 0 <= a < b < kept@.len() implies kept@[a].target@
                        != kept@[b].target@ by {
                        if b == kept@.len() - 1 {
                            assert(kept@[a] == kept0[a]);
                            let j = choose|j: int|
                                0 <= j < done && orig[j].target@ == kept0[a].target@;
                            assert(orig[j].target@ != orig[done].target@);
                        } else {
                            assert(kept@[a] == kept0[a] && kept@[b] == kept0[b]);
                        }
                    }
                    assert forall|k: int| 0 <= k < kept@.len() implies exists|j: int|
                        0 <= j < done + 1 && orig[j].target@ == #[trigger] kept@[k].target@ by {
                        if k < kept@.len() - 1 {
                            assert(kept@[k] == kept0[k]);
                            let j = choose|j: int|
                                0 <= j < done && orig[j].target@ == kept0[k].target@;
                            assert(orig[j].target@ == kept@[k].target@);
                        } else {
                            assert(orig[done].target@ == kept@[k].target@);
                        }
                    }
                }
            }
        }
        proof {
            assert(orig.take(total) =~= orig);
        }
        self.entries = kept;
    }

    /// Calculate the combined visual state of a target at `now`: each of
    /// its effects contributes its channel, later effects overriding
    /// earlier ones; a target with no entry keeps the empty state.
    pub fn calculate_visual_state(&self, target_id: &str, now: u64) -> (r: VisualState)
        ensures
            r == (match first_target(self.view_pairs(), target_id@) {
                Some(i) => visual_state_spec(self.view_pairs()[i].1, now),
                None => empty_visual_state(),
            }),
    {
        let ghost pairs = self.view_pairs();
        match self.find_entry(target_id) {
            Some(i) => {
                proof {
                    lemma_first_target_from_scan(pairs, target_id@, i as int);
                }
                let effects = &self.entries[i].effects;
                let ghost es = effects@;
                let mut state = VisualState::default();
                let mut k: usize = 0;
                proof {
                    assert(es.take(0) =~= Seq::<Effect>::empty());
                }
                while k < effects.len()
                    invariant
                        es == effects@,
                        0 <= k <= es.len(),
                        state == visual_state_spec(es.take(k as int), now),
                    decreases es.len() - k,
                {
                    proof {
                        assert(es.take(k + 1).drop_last() =~= es.take(k as int));
                        assert(es.take(k + 1).last() == es[k as int]);
                    }
                    let e = &effects[k];
                    let p: u64 = e.progress(now);
                    match e.effect_type {
                        EffectType::Sweep => {
                            state.sweep_position = Some(p);
                        },
                        EffectType::Pulse => {
                            let t: u64 = (p * 2) % 1000;
                            let half: u64 = crate::color::raised_sine(t);
                            proof {
                                assert(half * (1000 - p) <= 1000000) by (nonlinear_arith)
                                    requires half <= 1000 && p <= 1000;
                                crate::color::lemma_scale_le((1000 - p) as int, half as int);
                                assert(half * (1000 - p) == (1000 - p) * half) by (nonlinear_arith);
                            }
                            state.brightness = Some(half * (1000 - p) / 1000);
                        },
                        EffectType::FadeIn => {
                            state.opacity = Some(p);
                        },
                        EffectType::FadeOut => {
                            state.opacity = Some(1000 - p);
                        },
                        EffectType::Flash => {
                            state.flash_intensity = Some(1000 - p);
                        },
                    }
                    k = k + 1;
                }
                proof {
                    assert(es.take(es.len() as int) =~= es);
                }
                state
            },
            None => {
                proof {
                    lemma_first_target_from_scan(pairs, target_id@, pairs.len() as int);
                }
                VisualState::default()
            },
        }
    }

    /// Get the active effects for a target.
    pub fn get_effects(&self, target_id: &str) -> (r: Option<&Vec<Effect>>)
        ensures
            match first_target(self.view_pairs(), target_id@) {
                Some(i) => r matches Some(es) && es@ == self.view_pairs()[i].1,
                None => r is None,
            },
    {
        let ghost pairs = self.view_pairs();
        match self.find_entry(target_id) {
            Some(i) => {
                proof {
                    lemma_first_target_from_scan(pairs, target_id@, i as int);
                }
                Some(&self.entries[i].effects)
            },
            None => {
                proof {
                    lemma_first_target_from_scan(pairs, target_id@, pairs.len() as int);
                }
                None
            },
        }
    }
}

} // verus!
