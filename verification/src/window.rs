//! Window and display settings: monitor and resolution entries for the settings picker.

use vstd::prelude::*;
use crate::text::{decimal, push_decimal};
use crate::midi_io::names_match;

verus! {

/// A monitor as presented in the settings UI: stable `name` (config key) plus a
/// human-readable `label` (shown in the picker button and combo list).
pub struct MonitorEntry {
    pub name: String,
    pub label: String,
}

/// A resolution as presented in the settings UI, deduped by size with the highest
/// refresh rate kept.
pub struct ResolutionEntry {
    pub size: (u32, u32),
    pub refresh_rate_millihertz: u32,
}

/// Picker label of a resolution: "W × H（R Hz）" with the refresh rate in whole hertz, or
/// "W × H" when the refresh rate is unknown (zero).
pub open spec fn resolution_label(size: (u32, u32), refresh_rate_millihertz: u32) -> Seq<char> {
    if refresh_rate_millihertz > 0 {
        decimal(size.0 as nat) + " × "@ + decimal(size.1 as nat) + "（"@ + decimal(
            (refresh_rate_millihertz / 1000) as nat,
        ) + " Hz）"@
    } else {
        decimal(size.0 as nat) + " × "@ + decimal(size.1 as nat)
    }
}

impl ResolutionEntry {
    pub fn label(&self) -> (l: String)
        ensures
            l@ == resolution_label(self.size, self.refresh_rate_millihertz),
    {
        let mut s = String::new();
        push_decimal(&mut s, self.size.0 as u64);
        s.append(" × ");
        push_decimal(&mut s, self.size.1 as u64);
        if self.refresh_rate_millihertz > 0 {
            s.append("（");
            push_decimal(&mut s, (self.refresh_rate_millihertz / 1000) as u64);
            s.append(" Hz）");
        }
        s
    }
}

} // verus!

verus! {

/// Name under which a monitor is stored: its own name, or "monitor-i" for an unnamed monitor
/// at index `i`.
pub open spec fn monitor_name(index: int, name: Option<Seq<char>>) -> Seq<char> {
    match name {
        Some(n) => n,
        None => "monitor-"@ + decimal(index as nat),
    }
}

/// Picker label of a monitor: "N. name（W×H）" with its 1-based position and size.
pub open spec fn monitor_label(index: int, name: Seq<char>, width: u32, height: u32) -> Seq<char> {
    decimal((index + 1) as nat) + ". "@ + name + "（"@ + decimal(width as nat) + "×"@ + decimal(
        height as nat,
    ) + "）"@
}

/// The picker entry of the monitor at position `index` of the list, with its name (if it has
/// one) and size in physical pixels.
pub fn monitor_entry(index: usize, name: Option<String>, width: u32, height: u32) -> (e: MonitorEntry)
    requires
        index < usize::MAX,
    ensures
        e.name@ == monitor_name(index as int, match name {
            Some(n) => Some(n@),
            None => None,
        }),
        e.label@ == monitor_label(index as int, e.name@, width, height),
{
    let name = match name {
        Some(n) => n,
        None => {
            let mut s = String::from_str("monitor-");
            proof {
                reveal_strlit("monitor-");
            }
            push_decimal(&mut s, index as u64);
            s
        },
    };
    let mut label = String::new();
    push_decimal(&mut label, (index + 1) as u64);
    label.append(". ");
    label.append(name.as_str());
    label.append("（");
    push_decimal(&mut label, width as u64);
    label.append("×");
    push_decimal(&mut label, height as u64);
    label.append("）");
    MonitorEntry { name, label }
}

/// A video mode offered by a monitor: (width, height, refresh rate in millihertz).
pub open spec fn mode_size(m: (u32, u32, u32)) -> (u32, u32) {
    (m.0, m.1)
}

/// Ordering key of a mode when no resolution is stored: area first, then refresh rate.
pub open spec fn mode_key_less(a: (u32, u32, u32), b: (u32, u32, u32)) -> bool {
    a.0 * a.1 < b.0 * b.1 || (a.0 * a.1 == b.0 * b.1 && a.2 < b.2)
}

/// Whether mode `k` is a candidate: of the stored resolution when there is one, any mode
/// otherwise.
pub open spec fn mode_candidate(modes: Seq<(u32, u32, u32)>, k: int, resolution: Option<(u32, u32)>) -> bool {
    match resolution {
        Some(size) => mode_size(modes[k]) == size,
        None => true,
    }
}

/// Whether candidate `a` ranks below candidate `b`: by refresh rate for a stored resolution,
/// by (area, refresh rate) otherwise.
pub open spec fn mode_rank_less(a: (u32, u32, u32), b: (u32, u32, u32), resolution: Option<(u32, u32)>) -> bool {
    match resolution {
        Some(_) => a.2 < b.2,
        None => mode_key_less(a, b),
    }
}

/// Mode `i` is the one to take: with a stored resolution, a mode of exactly that size with no
/// mode of that size at a higher refresh rate; without one, a mode of the largest area (width
/// times height) with no mode of that same area at a higher refresh rate.
pub open spec fn largest_mode(modes: Seq<(u32, u32, u32)>, i: int, resolution: Option<(u32, u32)>) -> bool {
    &&& 0 <= i < modes.len()
    &&& match resolution {
        Some(size) => {
            &&& modes[i].0 == size.0 && modes[i].1 == size.1
            &&& forall|k: int| 0 <= k < modes.len() && (#[trigger] modes[k]).0 == size.0 && modes[k].1 == size.1 ==> modes[k].2 <= modes[i].2
        },
        None => forall|k: int|
            0 <= k < modes.len() ==> {
                ||| (#[trigger] modes[k]).0 * modes[k].1 < modes[i].0 * modes[i].1
                ||| (modes[k].0 * modes[k].1 == modes[i].0 * modes[i].1 && modes[k].2 <= modes[i].2)
            },
    }
}

/// A candidate that no candidate outranks is the mode to take (see [`largest_mode`]).
pub proof fn lemma_best_is_largest(modes: Seq<(u32, u32, u32)>, i: int, resolution: Option<(u32, u32)>)
    requires
        0 <= i < modes.len(),
        mode_candidate(modes, i, resolution),
        forall|k: int| 0 <= k < modes.len() && mode_candidate(modes, k, resolution) ==> !mode_rank_less(modes[i], #[trigger] modes[k], resolution),
    ensures
        largest_mode(modes, i, resolution),
{
    match resolution {
        Some(size) => {
            assert forall|k: int| 0 <= k < modes.len() && (#[trigger] modes[k]).0 == size.0 && modes[k].1 == size.1 implies modes[k].2 <= modes[i].2 by {
                assert(mode_candidate(modes, k, resolution));
            }
        },
        None => {
            assert forall|k: int| 0 <= k < modes.len() implies {
                ||| (#[trigger] modes[k]).0 * modes[k].1 < modes[i].0 * modes[i].1
                ||| (modes[k].0 * modes[k].1 == modes[i].0 * modes[i].1 && modes[k].2 <= modes[i].2)
            } by {
                assert(mode_candidate(modes, k, resolution));
            }
        },
    }
}

/// Pick the video mode matching the preferred resolution (highest refresh rate), or the
/// monitor's largest mode (then highest refresh rate) when no preference is stored. Among
/// equally ranked candidates the last one listed wins. `None` when no mode is a candidate.
pub fn pick_video_mode(modes: &Vec<(u32, u32, u32)>, resolution: Option<(u32, u32)>) -> (r: Option<usize>)
    requires
        forall|k: int| 0 <= k < modes@.len() ==> (#[trigger] modes@[k]).0 * modes@[k].1 <= u32::MAX,
    ensures
        r is None <==> forall|k: int| 0 <= k < modes@.len() ==> !mode_candidate(modes@, k, resolution),
        r matches Some(i) ==> {
            &&& i < modes@.len()
            &&& mode_candidate(modes@, i as int, resolution)
            &&& forall|k: int| 0 <= k < modes@.len() && mode_candidate(modes@, k, resolution) ==> !mode_rank_less(modes@[i as int], #[trigger] modes@[k], resolution)
            &&& forall|k: int| i < k < modes@.len() && mode_candidate(modes@, k, resolution) ==> mode_rank_less(#[trigger] modes@[k], modes@[i as int], resolution)
        },
        r matches Some(i) ==> largest_mode(modes@, i as int, resolution),
{
    let mut best: Option<usize> = None;
    let mut k: usize = 0;
    while k < modes.len()
        invariant
            k <= modes@.len(),
            forall|j: int| 0 <= j < modes@.len() ==> (#[trigger] modes@[j]).0 * modes@[j].1 <= u32::MAX,
            best is None <==> forall|j: int| 0 <= j < k ==> !mode_candidate(modes@, j, resolution),
            best matches Some(i) ==> {
                &&& i < k
                &&& mode_candidate(modes@, i as int, resolution)
                &&& forall|j: int| 0 <= j < k && mode_candidate(modes@, j, resolution) ==> !mode_rank_less(modes@[i as int], #[trigger] modes@[j], resolution)
                &&& forall|j: int| i < j < k && mode_candidate(modes@, j, resolution) ==> mode_rank_less(#[trigger] modes@[j], modes@[i as int], resolution)
            },
        decreases modes@.len() - k,
    {
        let m = modes[k];
        let candidate = match resolution {
            Some((w, h)) => m.0 == w && m.1 == h,
            None => true,
        };
        assert(candidate == mode_candidate(modes@, k as int, resolution));
        proof {
            if let Some(i) = best {
                assert(mode_candidate(modes@, i as int, resolution));
            }
        }
        if candidate {
            match best {
                None => {
                    best = Some(k);
                },
                Some(i) => {
                    let b = modes[i];
                    let not_less = match resolution {
                        Some(_) => m.2 >= b.2,
                        None => {
                            let am = m.0 * m.1;
                            let ab = b.0 * b.1;
                            am > ab || (am == ab && m.2 >= b.2)
                        },
                    };
                    if not_less {
                        best = Some(k);
                    }
                },
            }
        }
        k = k + 1;
    }
    proof {
        if let Some(i) = best {
            lemma_best_is_largest(modes@, i as int, resolution);
        }
    }
    best
}

/// The monitor the window settings apply to.
pub enum MonitorChoice {
    /// The monitor at this position of the list.
    Listed(usize),
    /// The monitor the window is currently on.
    Current,
    /// The system's primary monitor.
    Primary,
    /// No monitor at all.
    Unavailable,
}

/// Resolve the configured monitor: the first listed monitor with the stored name, else the
/// window's current monitor, else the primary monitor, else the first listed one.
pub fn select_monitor(
    names: &Vec<Option<String>>,
    wanted: Option<&String>,
    has_current: bool,
    has_primary: bool,
) -> (c: MonitorChoice)
    ensures
        ({
            let found = match wanted {
                Some(w) => exists|k: int| 0 <= k < names@.len() && #[trigger] names_match(names@, k, w@),
                None => false,
            };
            match c {
                MonitorChoice::Listed(i) => {
                    ||| (wanted matches Some(w) && i < names@.len() && names_match(names@, i as int, w@)
                        && forall|j: int| 0 <= j < i ==> !#[trigger] names_match(names@, j, w@))
                    ||| (!found && !has_current && !has_primary && i == 0 && names@.len() > 0)
                },
                MonitorChoice::Current => !found && has_current,
                MonitorChoice::Primary => !found && !has_current && has_primary,
                MonitorChoice::Unavailable => !found && !has_current && !has_primary && names@.len() == 0,
            }
        }),
{
    if let Some(w) = wanted {
        if let Some(i) = crate::midi_io::find_port(names, w) {
            return MonitorChoice::Listed(i);
        }
    }
    if has_current {
        MonitorChoice::Current
    } else if has_primary {
        MonitorChoice::Primary
    } else if names.len() > 0 {
        MonitorChoice::Listed(0)
    } else {
        MonitorChoice::Unavailable
    }
}

/// What applying the window settings does.
pub enum WindowPlan {
    /// Leave fullscreen; request this inner size when one is stored.
    Windowed(Option<(u32, u32)>),
    /// Borderless fullscreen on whatever monitor the window is on (no monitor is known).
    BorderlessAnywhere,
    /// Exclusive fullscreen in this video mode of the selected monitor.
    Exclusive(usize),
    /// Borderless fullscreen on the selected monitor (the stored resolution is not offered).
    BorderlessOnMonitor,
}

/// Apply the persisted window settings: exclusive fullscreen (selected monitor + resolution)
/// or windowed at the stored size. `monitor_modes` are the video modes of the selected monitor,
/// `None` when no monitor could be selected.
pub fn window_plan(
    fullscreen: bool,
    resolution: Option<(u32, u32)>,
    monitor_modes: Option<&Vec<(u32, u32, u32)>>,
) -> (p: WindowPlan)
    requires
        monitor_modes matches Some(modes) ==> forall|k: int| 0 <= k < modes@.len() ==> (#[trigger] modes@[k]).0 * modes@[k].1 <= u32::MAX,
    ensures
        !fullscreen ==> p == WindowPlan::Windowed(resolution),
        fullscreen && monitor_modes is None ==> p == WindowPlan::BorderlessAnywhere,
        fullscreen ==> (monitor_modes matches Some(modes) ==> match p {
            WindowPlan::Exclusive(i) => i < modes@.len() && mode_candidate(modes@, i as int, resolution)
                && largest_mode(modes@, i as int, resolution)
                && (forall|k: int| 0 <= k < modes@.len() && mode_candidate(modes@, k, resolution) ==> !mode_rank_less(modes@[i as int], #[trigger] modes@[k], resolution))
                && (forall|k: int| i < k < modes@.len() && mode_candidate(modes@, k, resolution) ==> mode_rank_less(#[trigger] modes@[k], modes@[i as int], resolution)),
            WindowPlan::BorderlessOnMonitor => forall|k: int| 0 <= k < modes@.len() ==> !mode_candidate(modes@, k, resolution),
            _ => false,
        }),
{
    if !fullscreen {
        return WindowPlan::Windowed(resolution);
    }
    match monitor_modes {
        None => WindowPlan::BorderlessAnywhere,
        Some(modes) => match pick_video_mode(modes, resolution) {
            Some(i) => WindowPlan::Exclusive(i),
            None => WindowPlan::BorderlessOnMonitor,
        },
    }
}

} // verus!

verus! {

/// Index of the first mode at or after `k` with the given size (the length when there is none).
pub open spec fn first_mode_from(modes: Seq<(u32, u32, u32)>, size: (u32, u32), k: int) -> int
    decreases modes.len() - k,
{
    if k >= modes.len() {
        modes.len() as int
    } else if mode_size(modes[k]) == size {
        k
    } else {
        first_mode_from(modes, size, k + 1)
    }
}

/// Index of the first mode with the given size.
#[verifier::opaque]
pub open spec fn first_mode(modes: Seq<(u32, u32, u32)>, size: (u32, u32)) -> int {
    first_mode_from(modes, size, 0)
}

proof fn lemma_first_mode_from(modes: Seq<(u32, u32, u32)>, size: (u32, u32), k: int)
    requires
        0 <= k <= modes.len(),
    ensures
        k <= first_mode_from(modes, size, k) <= modes.len(),
        forall|j: int| k <= j < first_mode_from(modes, size, k) ==> mode_size(#[trigger] modes[j]) != size,
        first_mode_from(modes, size, k) < modes.len() ==> mode_size(modes[first_mode_from(modes, size, k)]) == size,
    decreases modes.len() - k,
{
    if k < modes.len() && mode_size(modes[k]) != size {
        lemma_first_mode_from(modes, size, k + 1);
    }
}

/// The first mode with a size is the one at `f` exactly when `f` has that size and no earlier
/// mode has it.
proof fn lemma_first_mode_is(modes: Seq<(u32, u32, u32)>, size: (u32, u32), f: int)
    requires
        0 <= f < modes.len(),
        mode_size(modes[f]) == size,
        forall|j: int| 0 <= j < f ==> mode_size(#[trigger] modes[j]) != size,
    ensures
        first_mode(modes, size) == f,
{
    reveal(first_mode);
    lemma_first_mode_from(modes, size, 0);
    let g = first_mode(modes, size);
    if g < f {
        assert(mode_size(modes[g]) == size);
    }
    if g > f {
        assert(mode_size(modes[f]) != size);
    }
}

/// Whether `a` is listed before `b` in the picker: larger area first, then higher refresh
/// rate, then the size the monitor offered first.
pub open spec fn listed_before(modes: Seq<(u32, u32, u32)>, a: ResolutionEntry, b: ResolutionEntry) -> bool {
    let ka = a.size.0 * a.size.1;
    let kb = b.size.0 * b.size.1;
    ||| ka > kb
    ||| ka == kb && a.refresh_rate_millihertz > b.refresh_rate_millihertz
    ||| ka == kb && a.refresh_rate_millihertz == b.refresh_rate_millihertz && first_mode(modes, a.size) < first_mode(modes, b.size)
}

/// Whether some entry of `out` has the given size.
pub open spec fn size_listed(out: Seq<ResolutionEntry>, size: (u32, u32)) -> bool {
    exists|j: int| 0 <= j < out.len() && (#[trigger] out[j]).size == size
}

/// Whether `r` is the highest refresh rate among the modes of the given size.
pub open spec fn best_refresh(modes: Seq<(u32, u32, u32)>, size: (u32, u32), r: u32) -> bool {
    &&& exists|k: int| 0 <= k < modes.len() && mode_size(#[trigger] modes[k]) == size && modes[k].2 == r
    &&& forall|k: int| 0 <= k < modes.len() && mode_size(#[trigger] modes[k]) == size ==> modes[k].2 <= r
}

/// Whether the entries are in picker order.
pub open spec fn picker_sorted(modes: Seq<(u32, u32, u32)>, out: Seq<ResolutionEntry>) -> bool {
    forall|a: int, b: int| 0 <= a < b < out.len() ==> listed_before(modes, #[trigger] out[a], #[trigger] out[b])
}

/// The picker's resolution list for a monitor's modes: each offered size once, with the highest
/// refresh rate offered for it, in picker order.
pub open spec fn resolution_list_spec(modes: Seq<(u32, u32, u32)>, out: Seq<ResolutionEntry>) -> bool {
    &&& forall|a: int, b: int| 0 <= a < b < out.len() ==> (#[trigger] out[a]).size != (#[trigger] out[b]).size
    &&& forall|k: int| 0 <= k < modes.len() ==> size_listed(out, mode_size(#[trigger] modes[k]))
    &&& forall|j: int| 0 <= j < out.len() ==> best_refresh(modes, (#[trigger] out[j]).size, out[j].refresh_rate_millihertz)
    &&& picker_sorted(modes, out)
}

/// Invariant of the deduplication pass over the first `i` modes.
#[verifier::opaque]
spec fn dedup_inv(modes: Seq<(u32, u32, u32)>, i: int, best: Seq<ResolutionEntry>) -> bool {
    &&& forall|a: int, b: int| 0 <= a < b < best.len() ==> (#[trigger] best[a]).size != (#[trigger] best[b]).size
    &&& forall|k: int| 0 <= k < i ==> exists|j: int| 0 <= j < best.len() && (#[trigger] best[j]).size == mode_size(#[trigger] modes[k])
    &&& forall|j: int|
        0 <= j < best.len() ==> {
            &&& exists|k: int| 0 <= k < i && mode_size(#[trigger] modes[k]) == (#[trigger] best[j]).size && modes[k].2 == best[j].refresh_rate_millihertz
            &&& forall|k: int| 0 <= k < i && mode_size(#[trigger] modes[k]) == best[j].size ==> modes[k].2 <= best[j].refresh_rate_millihertz
            &&& first_mode(modes, best[j].size) < i
        }
    &&& forall|a: int, b: int| 0 <= a < b < best.len() ==> first_mode(modes, (#[trigger] best[a]).size) < first_mode(modes, (#[trigger] best[b]).size)
}

#[verifier::rlimit(80)]
#[verifier::spinoff_prover]
proof fn lemma_dedup_update(modes: Seq<(u32, u32, u32)>, i: int, old_best: Seq<ResolutionEntry>, j: int, best: Seq<ResolutionEntry>)
    requires
        0 <= i < modes.len(),
        dedup_inv(modes, i, old_best),
        0 <= j < old_best.len(),
        old_best[j].size == mode_size(modes[i]),
        best.len() == old_best.len(),
        forall|x: int| 0 <= x < best.len() && x != j ==> best[x] == old_best[x],
        best[j].size == old_best[j].size,
        best[j].refresh_rate_millihertz == (if modes[i].2 > old_best[j].refresh_rate_millihertz {
            modes[i].2
        } else {
            old_best[j].refresh_rate_millihertz
        }),
    ensures
        dedup_inv(modes, i + 1, best),
{
    reveal(dedup_inv);
    assert forall|a: int, b: int| 0 <= a < b < best.len() implies (#[trigger] best[a]).size != (#[trigger] best[b]).size by {
        assert(old_best[a].size != old_best[b].size);
    }
    assert forall|a: int, b: int| 0 <= a < b < best.len() implies first_mode(modes, (#[trigger] best[a]).size) < first_mode(modes, (#[trigger] best[b]).size) by {
        assert(first_mode(modes, old_best[a].size) < first_mode(modes, old_best[b].size));
    }
    assert forall|x: int| 0 <= x < best.len() implies {
        &&& exists|k: int| 0 <= k < i + 1 && mode_size(#[trigger] modes[k]) == (#[trigger] best[x]).size && modes[k].2 == best[x].refresh_rate_millihertz
        &&& forall|k: int| 0 <= k < i + 1 && mode_size(#[trigger] modes[k]) == best[x].size ==> modes[k].2 <= best[x].refresh_rate_millihertz
        &&& first_mode(modes, best[x].size) < i + 1
    } by {
        let k = choose|k: int| 0 <= k < i && mode_size(#[trigger] modes[k]) == (#[trigger] old_best[x]).size && modes[k].2 == old_best[x].refresh_rate_millihertz;
        if x == j {
            if modes[i].2 > old_best[x].refresh_rate_millihertz {
                assert(mode_size(modes[i]) == best[x].size);
            } else {
                assert(mode_size(modes[k]) == best[x].size);
            }
        } else {
            assert(mode_size(modes[k]) == best[x].size);
            assert(old_best[x].size != old_best[j].size);
        }
    }
    assert forall|k: int| 0 <= k < i + 1 implies exists|x: int| 0 <= x < best.len() && (#[trigger] best[x]).size == mode_size(#[trigger] modes[k]) by {
        if k == i {
            assert(best[j].size == mode_size(modes[k]));
        } else {
            let x = choose|x: int| 0 <= x < old_best.len() && (#[trigger] old_best[x]).size == mode_size(#[trigger] modes[k]);
            assert(best[x].size == old_best[x].size);
        }
    }
}

#[verifier::rlimit(40)]
proof fn lemma_dedup_push(modes: Seq<(u32, u32, u32)>, i: int, old_best: Seq<ResolutionEntry>, best: Seq<ResolutionEntry>)
    requires
        0 <= i < modes.len(),
        dedup_inv(modes, i, old_best),
        forall|x: int| 0 <= x < old_best.len() ==> (#[trigger] old_best[x]).size != mode_size(modes[i]),
        best == old_best.push(ResolutionEntry { size: mode_size(modes[i]), refresh_rate_millihertz: modes[i].2 }),
    ensures
        dedup_inv(modes, i + 1, best),
{
    reveal(dedup_inv);
    let size = mode_size(modes[i]);
    let nl = best.len() - 1;
    assert forall|k: int| 0 <= k < i implies mode_size(#[trigger] modes[k]) != size by {
        let x = choose|x: int| 0 <= x < old_best.len() && (#[trigger] old_best[x]).size == mode_size(#[trigger] modes[k]);
    }
    lemma_first_mode_is(modes, size, i);
    assert forall|a: int, b: int| 0 <= a < b < best.len() implies (#[trigger] best[a]).size != (#[trigger] best[b]).size by {
        if b < nl {
            assert(old_best[a].size != old_best[b].size);
        }
    }
    assert forall|a: int, b: int| 0 <= a < b < best.len() implies first_mode(modes, (#[trigger] best[a]).size) < first_mode(modes, (#[trigger] best[b]).size) by {
        if b < nl {
            assert(first_mode(modes, old_best[a].size) < first_mode(modes, old_best[b].size));
        } else {
            assert(first_mode(modes, old_best[a].size) < i);
        }
    }
    assert forall|x: int| 0 <= x < best.len() implies {
        &&& exists|k: int| 0 <= k < i + 1 && mode_size(#[trigger] modes[k]) == (#[trigger] best[x]).size && modes[k].2 == best[x].refresh_rate_millihertz
        &&& forall|k: int| 0 <= k < i + 1 && mode_size(#[trigger] modes[k]) == best[x].size ==> modes[k].2 <= best[x].refresh_rate_millihertz
        &&& first_mode(modes, best[x].size) < i + 1
    } by {
        if x == nl {
            assert(mode_size(modes[i]) == best[x].size);
        } else {
            let k = choose|k: int| 0 <= k < i && mode_size(#[trigger] modes[k]) == (#[trigger] old_best[x]).size && modes[k].2 == old_best[x].refresh_rate_millihertz;
            assert(mode_size(modes[k]) == best[x].size);
            assert(mode_size(modes[i]) != best[x].size);
        }
    }
    assert forall|k: int| 0 <= k < i + 1 implies exists|x: int| 0 <= x < best.len() && (#[trigger] best[x]).size == mode_size(#[trigger] modes[k]) by {
        if k == i {
            assert(best[nl].size == mode_size(modes[k]));
        } else {
            let x = choose|x: int| 0 <= x < old_best.len() && (#[trigger] old_best[x]).size == mode_size(#[trigger] modes[k]);
            assert(best[x].size == old_best[x].size);
        }
    }
}

/// Each offered size once, with the highest refresh rate offered for it, in order of first
/// appearance.
fn dedup_sizes(modes: &Vec<(u32, u32, u32)>) -> (best: Vec<ResolutionEntry>)
    ensures
        dedup_inv(modes@, modes@.len() as int, best@),
{
    let mut best: Vec<ResolutionEntry> = Vec::new();
    let mut i: usize = 0;
    assert(dedup_inv(modes@, 0, best@)) by {
        reveal(dedup_inv);
    }
    while i < modes.len()
        invariant
            i <= modes@.len(),
            dedup_inv(modes@, i as int, best@),
        decreases modes@.len() - i,
    {
        let m = modes[i];
        let size = (m.0, m.1);
        let mut j: usize = 0;
        while j < best.len() && !(best[j].size.0 == size.0 && best[j].size.1 == size.1)
            invariant
                j <= best@.len(),
                forall|x: int| 0 <= x < j ==> (#[trigger] best@[x]).size != size,
            decreases best@.len() - j,
        {
            j = j + 1;
        }
        let ghost old_best = best@;
        if j < best.len() {
            let refresh = if m.2 > best[j].refresh_rate_millihertz {
                m.2
            } else {
                best[j].refresh_rate_millihertz
            };
            let e = ResolutionEntry { size: best[j].size, refresh_rate_millihertz: refresh };
            best.set(j, e);
            proof {
                lemma_dedup_update(modes@, i as int, old_best, j as int, best@);
            }
        } else {
            best.push(ResolutionEntry { size, refresh_rate_millihertz: m.2 });
            proof {
                lemma_dedup_push(modes@, i as int, old_best, best@);
            }
        }
        i = i + 1;
    }
    best
}

} // verus!

verus! {

/// Picker key of an entry, (area, refresh rate), compared lexicographically: whether `a`'s key
/// is strictly smaller than `b`'s.
pub open spec fn entry_key_less(a: ResolutionEntry, b: ResolutionEntry) -> bool {
    let ka = a.size.0 * a.size.1;
    let kb = b.size.0 * b.size.1;
    ka < kb || (ka == kb && a.refresh_rate_millihertz < b.refresh_rate_millihertz)
}

fn key_less(a: &ResolutionEntry, b: &ResolutionEntry) -> (r: bool)
    ensures
        r == entry_key_less(*a, *b),
{
    let (aw, ah) = (a.size.0 as u64, a.size.1 as u64);
    let (bw, bh) = (b.size.0 as u64, b.size.1 as u64);
    assert(aw * ah <= u32::MAX as u64 * u32::MAX as u64) by (nonlinear_arith)
        requires
            aw <= u32::MAX,
            ah <= u32::MAX,
    ;
    assert(bw * bh <= u32::MAX as u64 * u32::MAX as u64) by (nonlinear_arith)
        requires
            bw <= u32::MAX,
            bh <= u32::MAX,
    ;
    let ka = aw * ah;
    let kb = bw * bh;
    ka < kb || (ka == kb && a.refresh_rate_millihertz < b.refresh_rate_millihertz)
}

/// Every entry of `o` is one of the first `n` entries of `bs`.
#[verifier::opaque]
spec fn drawn_from(o: Seq<ResolutionEntry>, bs: Seq<ResolutionEntry>, n: int) -> bool {
    forall|x: int| 0 <= x < o.len() ==> exists|y: int| 0 <= y < n && #[trigger] o[x] == #[trigger] bs[y]
}

/// Each of the first `n` entries of `bs` is an entry of `o`.
#[verifier::opaque]
spec fn all_placed(o: Seq<ResolutionEntry>, bs: Seq<ResolutionEntry>, n: int) -> bool {
    forall|y: int| 0 <= y < n ==> exists|x: int| 0 <= x < o.len() && #[trigger] o[x] == #[trigger] bs[y]
}

/// Inserting the next deduplicated entry at the first place whose entry has a smaller key keeps
/// the list in picker order.
proof fn lemma_insert_sorted(
    modes: Seq<(u32, u32, u32)>,
    bs: Seq<ResolutionEntry>,
    i: int,
    old_out: Seq<ResolutionEntry>,
    p: int,
    out: Seq<ResolutionEntry>,
)
    requires
        dedup_inv(modes, modes.len() as int, bs),
        0 <= i < bs.len(),
        0 <= p <= old_out.len(),
        drawn_from(old_out, bs, i),
        picker_sorted(modes, old_out),
        forall|x: int| 0 <= x < p ==> !entry_key_less(#[trigger] old_out[x], bs[i]),
        p < old_out.len() ==> entry_key_less(old_out[p], bs[i]),
        out == old_out.insert(p, bs[i]),
    ensures
        picker_sorted(modes, out),
{
    reveal(dedup_inv);
    reveal(drawn_from);
    let e = bs[i];
    assert forall|a: int, b: int| 0 <= a < b < out.len() implies listed_before(modes, #[trigger] out[a], #[trigger] out[b]) by {
        if b < p {
            assert(listed_before(modes, old_out[a], old_out[b]));
        } else if a > p {
            assert(listed_before(modes, old_out[a - 1], old_out[b - 1]));
        } else if a == p {
            assert(entry_key_less(old_out[p], e));
            if b - 1 > p {
                assert(listed_before(modes, old_out[p], old_out[b - 1]));
            }
        } else {
            let oa = old_out[a];
            let y = choose|y: int| 0 <= y < i && oa == #[trigger] bs[y];
            assert(first_mode(modes, bs[y].size) < first_mode(modes, bs[i].size));
            assert(!entry_key_less(old_out[a], e));
            if b > p {
                assert(entry_key_less(old_out[p], e));
                assert(listed_before(modes, old_out[a], old_out[b - 1]));
            }
        }
    }
}

/// Inserting the next deduplicated entry keeps the output a rearrangement of the entries seen.
proof fn lemma_insert_members(
    bs: Seq<ResolutionEntry>,
    i: int,
    old_out: Seq<ResolutionEntry>,
    p: int,
    out: Seq<ResolutionEntry>,
)
    requires
        0 <= i < bs.len(),
        0 <= p <= old_out.len(),
        drawn_from(old_out, bs, i),
        all_placed(old_out, bs, i),
        out == old_out.insert(p, bs[i]),
    ensures
        drawn_from(out, bs, i + 1),
        all_placed(out, bs, i + 1),
{
    reveal(drawn_from);
    reveal(all_placed);
    assert forall|x: int| 0 <= x < out.len() implies exists|y: int| 0 <= y < i + 1 && #[trigger] out[x] == #[trigger] bs[y] by {
        if x < p {
            let ox = old_out[x];
            let y = choose|y: int| 0 <= y < i && ox == #[trigger] bs[y];
            assert(0 <= y < i + 1 && out[x] == bs[y]);
        } else if x > p {
            let ox = old_out[x - 1];
            let y = choose|y: int| 0 <= y < i && ox == #[trigger] bs[y];
            assert(0 <= y < i + 1 && out[x] == bs[y]);
        } else {
            assert(out[x] == bs[i]);
        }
    }
    assert forall|y: int| 0 <= y < i + 1 implies exists|x: int| 0 <= x < out.len() && #[trigger] out[x] == #[trigger] bs[y] by {
        if y == i {
            assert(out[p] == bs[y]);
        } else {
            let b = bs[y];
            let x = choose|x: int| 0 <= x < old_out.len() && #[trigger] old_out[x] == b;
            if x < p {
                assert(out[x] == bs[y]);
            } else {
                assert(out[x + 1] == bs[y]);
            }
        }
    }
}

/// A rearrangement of the deduplicated entries in picker order is the picker's list.
proof fn lemma_sorted_is_list(modes: Seq<(u32, u32, u32)>, bs: Seq<ResolutionEntry>, o: Seq<ResolutionEntry>)
    requires
        dedup_inv(modes, modes.len() as int, bs),
        drawn_from(o, bs, bs.len() as int),
        all_placed(o, bs, bs.len() as int),
        picker_sorted(modes, o),
    ensures
        resolution_list_spec(modes, o),
{
    lemma_sorted_sizes_distinct(modes, bs, o);
    lemma_sorted_covers(modes, bs, o);
    lemma_sorted_refresh(modes, bs, o);
}

proof fn lemma_sorted_sizes_distinct(modes: Seq<(u32, u32, u32)>, bs: Seq<ResolutionEntry>, o: Seq<ResolutionEntry>)
    requires
        dedup_inv(modes, modes.len() as int, bs),
        drawn_from(o, bs, bs.len() as int),
        picker_sorted(modes, o),
    ensures
        forall|a: int, b: int| 0 <= a < b < o.len() ==> (#[trigger] o[a]).size != (#[trigger] o[b]).size,
{
    reveal(dedup_inv);
    reveal(drawn_from);
    assert forall|a: int, b: int| 0 <= a < b < o.len() implies (#[trigger] o[a]).size != (#[trigger] o[b]).size by {
        let oa = o[a];
        let ob = o[b];
        let ya = choose|y: int| 0 <= y < bs.len() && oa == #[trigger] bs[y];
        let yb = choose|y: int| 0 <= y < bs.len() && ob == #[trigger] bs[y];
        if ya == yb {
            assert(listed_before(modes, o[a], o[b]));
        } else if ya < yb {
            assert(bs[ya].size != bs[yb].size);
        } else {
            assert(bs[yb].size != bs[ya].size);
        }
    }
}

proof fn lemma_sorted_covers(modes: Seq<(u32, u32, u32)>, bs: Seq<ResolutionEntry>, o: Seq<ResolutionEntry>)
    requires
        dedup_inv(modes, modes.len() as int, bs),
        all_placed(o, bs, bs.len() as int),
    ensures
        forall|k: int| 0 <= k < modes.len() ==> size_listed(o, mode_size(#[trigger] modes[k])),
{
    reveal(dedup_inv);
    reveal(all_placed);
    assert forall|k: int| 0 <= k < modes.len() implies size_listed(o, mode_size(#[trigger] modes[k])) by {
        let m = modes[k];
        let y = choose|y: int| 0 <= y < bs.len() && (#[trigger] bs[y]).size == mode_size(m);
        let b = bs[y];
        let x = choose|x: int| 0 <= x < o.len() && #[trigger] o[x] == b;
        assert(0 <= x < o.len() && o[x].size == mode_size(modes[k]));
    }
}

proof fn lemma_sorted_refresh(modes: Seq<(u32, u32, u32)>, bs: Seq<ResolutionEntry>, o: Seq<ResolutionEntry>)
    requires
        dedup_inv(modes, modes.len() as int, bs),
        drawn_from(o, bs, bs.len() as int),
    ensures
        forall|j: int| 0 <= j < o.len() ==> best_refresh(modes, (#[trigger] o[j]).size, o[j].refresh_rate_millihertz),
{
    reveal(dedup_inv);
    reveal(drawn_from);
    assert forall|j: int| 0 <= j < o.len() implies best_refresh(modes, (#[trigger] o[j]).size, o[j].refresh_rate_millihertz) by {
        let oj = o[j];
        let y = choose|y: int| 0 <= y < bs.len() && oj == #[trigger] bs[y];
        let b = bs[y];
        assert(o[j] == b);
        let k = choose|k: int| 0 <= k < modes.len() && mode_size(#[trigger] modes[k]) == b.size && modes[k].2 == b.refresh_rate_millihertz;
        assert(mode_size(modes[k]) == o[j].size && modes[k].2 == o[j].refresh_rate_millihertz);
    }
}

/// List the resolutions a monitor supports — given its video modes as (width, height, refresh
/// rate in millihertz) — deduped by size (highest refresh rate kept), sorted from largest to
/// smallest (then by refresh rate; equal keys keep the order the monitor offered them in).
pub fn dedupe_resolutions(modes: &Vec<(u32, u32, u32)>) -> (out: Vec<ResolutionEntry>)
    requires
        forall|k: int| 0 <= k < modes@.len() ==> (#[trigger] modes@[k]).0 * modes@[k].1 <= u32::MAX,
    ensures
        resolution_list_spec(modes@, out@),
{
    let best = dedup_sizes(modes);
    let ghost bs = best@;
    let mut out: Vec<ResolutionEntry> = Vec::new();
    let mut i: usize = 0;
    proof {
        reveal(drawn_from);
        reveal(all_placed);
    }
    while i < best.len()
        invariant
            bs == best@,
            dedup_inv(modes@, modes@.len() as int, bs),
            i <= bs.len(),
            out@.len() == i,
            drawn_from(out@, bs, i as int),
            all_placed(out@, bs, i as int),
            picker_sorted(modes@, out@),
        decreases bs.len() - i,
    {
        let e = ResolutionEntry { size: best[i].size, refresh_rate_millihertz: best[i].refresh_rate_millihertz };
        assert(e == bs[i as int]);
        let mut p: usize = 0;
        while p < out.len() && !key_less(&out[p], &e)
            invariant
                p <= out@.len(),
                forall|x: int| 0 <= x < p ==> !entry_key_less(#[trigger] out@[x], e),
            decreases out@.len() - p,
        {
            p = p + 1;
        }
        let ghost old_out = out@;
        out.insert(p, e);
        proof {
            lemma_insert_sorted(modes@, bs, i as int, old_out, p as int, out@);
            lemma_insert_members(bs, i as int, old_out, p as int, out@);
        }
        i = i + 1;
    }
    proof {
        assert(i == bs.len());
        lemma_sorted_is_list(modes@, bs, out@);
    }
    out
}

} // verus!
