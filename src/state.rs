//! The opacity state: whether dimming is on, the global opacity, whether each
//! display is dimmed on its own, and the per-display overrides keyed by the
//! display's de-duplicated name.
use vstd::prelude::*;

use crate::opacity::{clamp_opacity, clamped, valid_opacity, MAX_OPACITY};

verus! {

/// An opacity override for one display, keyed by its de-duplicated name.
#[derive(Clone, Debug)]
pub struct DisplayOpacity {
    pub name: String,
    pub opacity: u32,
}

/// The process-wide dimming intent. Every render path reads a copy of it.
#[derive(Clone, Debug)]
pub struct OpacityState {
    pub enabled: bool,
    pub global_opacity: u32,
    pub multi_monitor: bool,
    /// Per-display overrides; no two entries share a name.
    pub per_display: Vec<DisplayOpacity>,
}

/// What an [`OpacityState`] means: its flags, its global opacity and its
/// overrides as a map from display name to opacity.
pub struct OpacityStateView {
    pub enabled: bool,
    pub global_opacity: u32,
    pub multi_monitor: bool,
    pub overrides: Map<Seq<char>, u32>,
}

/// The entries of an override list, each as a name and an opacity.
pub open spec fn entries_of(v: Seq<DisplayOpacity>) -> Seq<(Seq<char>, u32)> {
    v.map_values(|e: DisplayOpacity| (e.name@, e.opacity))
}

/// True when no two entries share a name.
pub open spec fn names_unique(s: Seq<(Seq<char>, u32)>) -> bool {
    forall|i: int, j: int|
        0 <= i < s.len() && 0 <= j < s.len() && i != j ==> #[trigger] s[i].0 != #[trigger] s[j].0
}

/// True when an entry of `s` carries the name `k`.
pub open spec fn has_name(s: Seq<(Seq<char>, u32)>, k: Seq<char>) -> bool {
    exists|i: int| 0 <= i < s.len() && s[i].0 == k
}

/// The map from name to opacity that a list of entries stands for.
pub open spec fn map_of(s: Seq<(Seq<char>, u32)>) -> Map<Seq<char>, u32> {
    Map::new(
        |k: Seq<char>| has_name(s, k),
        |k: Seq<char>| s[choose|i: int| 0 <= i < s.len() && s[i].0 == k].1,
    )
}

/// The overrides that a list of requested `(name, opacity)` pairs gives when
/// they are applied in order: a later pair for a name replaces an earlier
/// one, and every opacity is clamped.
pub open spec fn overrides_from(req: Seq<(Seq<char>, i64)>) -> Map<Seq<char>, u32>
    decreases req.len(),
{
    if req.len() == 0 {
        Map::empty()
    } else {
        let last = req.last();
        overrides_from(req.drop_last()).insert(last.0, clamped(last.1 as int) as u32)
    }
}

/// The requested pairs, each as a name and a raw opacity.
pub open spec fn requests_of(v: Seq<(String, i64)>) -> Seq<(Seq<char>, i64)> {
    v.map_values(|p: (String, i64)| (p.0@, p.1))
}

impl View for OpacityState {
    type V = OpacityStateView;

    open spec fn view(&self) -> OpacityStateView {
        OpacityStateView {
            enabled: self.enabled,
            global_opacity: self.global_opacity,
            multi_monitor: self.multi_monitor,
            overrides: map_of(entries_of(self.per_display@)),
        }
    }
}

impl OpacityStateView {
    /// The opacity at which the display named `name` is dimmed in
    /// multi-monitor mode: its override, or else the global opacity.
    pub open spec fn opacity_for(self, name: Seq<char>) -> u32 {
        if self.overrides.contains_key(name) {
            self.overrides[name]
        } else {
            self.global_opacity
        }
    }

    /// Every opacity that the state holds lies in `[0, 90]`.
    pub open spec fn opacities_valid(self) -> bool {
        &&& valid_opacity(self.global_opacity as int)
        &&& forall|k: Seq<char>| #[trigger]
            self.overrides.contains_key(k) ==> valid_opacity(self.overrides[k] as int)
    }
}

proof fn lemma_map_of_at(s: Seq<(Seq<char>, u32)>, i: int)
    requires
        names_unique(s),
        0 <= i < s.len(),
    ensures
        map_of(s).contains_key(s[i].0),
        map_of(s)[s[i].0] == s[i].1,
{
    assert(has_name(s, s[i].0));
}

proof fn lemma_map_of_push(s: Seq<(Seq<char>, u32)>, e: (Seq<char>, u32))
    requires
        names_unique(s),
        !has_name(s, e.0),
    ensures
        names_unique(s.push(e)),
        map_of(s.push(e)) =~= map_of(s).insert(e.0, e.1),
{
    let t = s.push(e);
    assert forall|i: int, j: int|
        0 <= i < t.len() && 0 <= j < t.len() && i != j implies #[trigger] t[i].0 != #[trigger] t[j].0 by {
        if i < s.len() && j < s.len() {
            assert(s[i].0 != s[j].0);
        } else if i < s.len() {
            assert(s[i].0 != e.0);
        } else {
            assert(s[j].0 != e.0);
        }
    }
    assert forall|k: Seq<char>| #[trigger] map_of(t).contains_key(k) == map_of(s).insert(
        e.0,
        e.1,
    ).contains_key(k) by {
        if has_name(s, k) {
            let i = choose|i: int| 0 <= i < s.len() && s[i].0 == k;
            assert(t[i].0 == k);
        }
        if k == e.0 {
            assert(t[s.len() as int].0 == k);
        }
        if has_name(t, k) && k != e.0 {
            let i = choose|i: int| 0 <= i < t.len() && t[i].0 == k;
            assert(s[i].0 == k);
        }
    }
    assert forall|k: Seq<char>| #[trigger] map_of(t).contains_key(k) implies map_of(t)[k] == map_of(
        s,
    ).insert(e.0, e.1)[k] by {
        let i = choose|i: int| 0 <= i < t.len() && t[i].0 == k;
        lemma_map_of_at(t, i);
        if i < s.len() {
            lemma_map_of_at(s, i);
        }
    }
}

proof fn lemma_map_of_update(s: Seq<(Seq<char>, u32)>, i: int, v: u32)
    requires
        names_unique(s),
        0 <= i < s.len(),
    ensures
        names_unique(s.update(i, (s[i].0, v))),
        map_of(s.update(i, (s[i].0, v))) =~= map_of(s).insert(s[i].0, v),
{
    let t = s.update(i, (s[i].0, v));
    assert forall|a: int, b: int|
        0 <= a < t.len() && 0 <= b < t.len() && a != b implies #[trigger] t[a].0 != #[trigger] t[b].0 by {
        assert(s[a].0 != s[b].0);
    }
    assert forall|k: Seq<char>| #[trigger] map_of(t).contains_key(k) == map_of(s).insert(
        s[i].0,
        v,
    ).contains_key(k) by {
        if has_name(s, k) {
            let j = choose|j: int| 0 <= j < s.len() && s[j].0 == k;
            assert(t[j].0 == k);
        }
        if has_name(t, k) {
            let j = choose|j: int| 0 <= j < t.len() && t[j].0 == k;
            assert(s[j].0 == k);
        }
    }
    assert forall|k: Seq<char>| #[trigger] map_of(t).contains_key(k) implies map_of(t)[k] == map_of(
        s,
    ).insert(s[i].0, v)[k] by {
        let j = choose|j: int| 0 <= j < t.len() && t[j].0 == k;
        lemma_map_of_at(t, j);
        lemma_map_of_at(s, j);
    }
}

impl OpacityState {
    /// Well-formed: opacities in range and override names unique.
    pub open spec fn wf(&self) -> bool {
        &&& valid_opacity(self.global_opacity as int)
        &&& names_unique(entries_of(self.per_display@))
        &&& forall|i: int|
            0 <= i < self.per_display@.len() ==> valid_opacity(
                #[trigger] self.per_display@[i].opacity as int,
            )
    }

    /// A state with the given flags and global opacity and no overrides.
    pub fn new(enabled: bool, global_opacity: i64, multi_monitor: bool) -> (r: OpacityState)
        ensures
            r.wf(),
            r@.enabled == enabled,
            r@.global_opacity as int == clamped(global_opacity as int),
            r@.multi_monitor == multi_monitor,
            r@.overrides == Map::<Seq<char>, u32>::empty(),
    {
        let r = OpacityState {
            enabled,
            global_opacity: clamp_opacity(global_opacity),
            multi_monitor,
            per_display: Vec::new(),
        };
        assert(r@.overrides =~= Map::<Seq<char>, u32>::empty());
        r
    }

    /// Index of the override entry named `name`, if there is one.
    fn find(&self, name: &String) -> (r: Option<usize>)
        requires
            self.wf(),
        ensures
            match r {
                Some(i) => i < self.per_display@.len() && self.per_display@[i as int].name@
                    == name@,
                None => !has_name(entries_of(self.per_display@), name@),
            },
    {
        let mut i: usize = 0;
        while i < self.per_display.len()
            invariant
                i <= self.per_display@.len(),
                forall|j: int| 0 <= j < i ==> self.per_display@[j].name@ != name@,
            decreases self.per_display@.len() - i,
        {
            if self.per_display[i].name == *name {
                return Some(i);
            }
            i += 1;
        }
        proof {
            let s = entries_of(self.per_display@);
            assert forall|j: int| 0 <= j < s.len() implies s[j].0 != name@ by {
                assert(self.per_display@[j].name@ != name@);
            }
        }
        None
    }

    /// The override stored for the display named `name`, if any.
    pub fn override_for(&self, name: &String) -> (r: Option<u32>)
        requires
            self.wf(),
        ensures
            r == (if self@.overrides.contains_key(name@) {
                Some(self@.overrides[name@])
            } else {
                None
            }),
    {
        match self.find(name) {
            Some(i) => {
                proof {
                    lemma_map_of_at(entries_of(self.per_display@), i as int);
                }
                Some(self.per_display[i].opacity)
            },
            None => None,
        }
    }

    /// The opacity at which the display named `name` is dimmed in
    /// multi-monitor mode: its override, falling back to the global opacity.
    pub fn opacity_for(&self, name: &String) -> (r: u32)
        requires
            self.wf(),
        ensures
            r == self@.opacity_for(name@),
            valid_opacity(r as int),
    {
        match self.override_for(name) {
            Some(o) => {
                proof {
                    lemma_wf_opacities_valid(self);
                }
                o
            },
            None => self.global_opacity,
        }
    }

    /// Sets the override of the display named `name` to `opacity`, clamped.
    pub fn set_display_opacity(&mut self, name: &String, opacity: i64)
        requires
            old(self).wf(),
        ensures
            final(self).wf(),
            final(self)@ == (OpacityStateView {
                overrides: old(self)@.overrides.insert(name@, clamped(opacity as int) as u32),
                ..old(self)@
            }),
    {
        let o = clamp_opacity(opacity);
        let ghost s = entries_of(self.per_display@);
        match self.find(name) {
            Some(i) => {
                let n = self.per_display[i].name.clone();
                self.per_display.set(i, DisplayOpacity { name: n, opacity: o });
                proof {
                    lemma_map_of_update(s, i as int, o);
                    assert(entries_of(self.per_display@) =~= s.update(i as int, (s[i as int].0, o)));
                }
            },
            None => {
                self.per_display.push(DisplayOpacity { name: name.clone(), opacity: o });
                proof {
                    lemma_map_of_push(s, (name@, o));
                    assert(entries_of(self.per_display@) =~= s.push((name@, o)));
                }
            },
        }
        proof {
            assert forall|i: int| 0 <= i < self.per_display@.len() implies valid_opacity(
                #[trigger] self.per_display@[i].opacity as int,
            ) by {
                if self.per_display@[i].opacity != o {
                    assert(old(self).per_display@[i].opacity == self.per_display@[i].opacity);
                }
            }
        }
    }

    /// Replaces the whole state: flags, global opacity and overrides, every
    /// opacity clamped to `[0, 90]`, a later request for a name replacing an
    /// earlier one. Returns a copy of the new state.
    pub fn update(
        &mut self,
        enabled: bool,
        global_opacity: i64,
        multi_monitor: bool,
        per_display: &Vec<(String, i64)>,
    ) -> (r: OpacityState)
        ensures
            final(self).wf(),
            final(self)@ == (OpacityStateView {
                enabled,
                global_opacity: clamped(global_opacity as int) as u32,
                multi_monitor,
                overrides: overrides_from(requests_of(per_display@)),
            }),
            r.wf(),
            r@ == final(self)@,
    {
        let mut next = OpacityState::new(enabled, global_opacity, multi_monitor);
        let mut i: usize = 0;
        while i < per_display.len()
            invariant
                i <= per_display@.len(),
                next.wf(),
                next@ == (OpacityStateView {
                    enabled,
                    global_opacity: clamped(global_opacity as int) as u32,
                    multi_monitor,
                    overrides: overrides_from(requests_of(per_display@).take(i as int)),
                }),
            decreases per_display@.len() - i,
        {
            next.set_display_opacity(&per_display[i].0, per_display[i].1);
            proof {
                let req = requests_of(per_display@);
                assert(req.take(i + 1).drop_last() =~= req.take(i as int));
            }
            i += 1;
        }
        proof {
            assert(requests_of(per_display@).take(i as int) =~= requests_of(per_display@));
        }
        let r = next.copy();
        *self = next;
        r
    }

    /// A copy of this state, taken as one snapshot.
    pub fn copy(&self) -> (r: OpacityState)
        requires
            self.wf(),
        ensures
            r.wf(),
            r@ == self@,
    {
        let mut v: Vec<DisplayOpacity> = Vec::new();
        let mut i: usize = 0;
        while i < self.per_display.len()
            invariant
                i <= self.per_display@.len(),
                v@.len() == i,
                entries_of(v@) == entries_of(self.per_display@).take(i as int),
                forall|j: int| 0 <= j < v@.len() ==> #[trigger] v@[j].opacity == self.per_display@[j].opacity,
            decreases self.per_display@.len() - i,
        {
            let e = DisplayOpacity {
                name: self.per_display[i].name.clone(),
                opacity: self.per_display[i].opacity,
            };
            let ghost before = v@;
            v.push(e);
            proof {
                assert(v@ == before.push(e));
                assert(entries_of(v@) =~= entries_of(before).push((e.name@, e.opacity)));
                assert(entries_of(v@) =~= entries_of(self.per_display@).take(i + 1));
            }
            i += 1;
        }
        let r = OpacityState {
            enabled: self.enabled,
            global_opacity: self.global_opacity,
            multi_monitor: self.multi_monitor,
            per_display: v,
        };
        proof {
            assert(entries_of(v@) =~= entries_of(self.per_display@));
            assert forall|a: int, b: int|
                0 <= a < entries_of(v@).len() && 0 <= b < entries_of(v@).len() && a != b implies
                #[trigger] entries_of(v@)[a].0 != #[trigger] entries_of(v@)[b].0 by {
                assert(entries_of(self.per_display@)[a].0 != entries_of(self.per_display@)[b].0);
            }
        }
        r
    }
}

/// Every opacity that a well-formed state holds lies in `[0, 90]`.
pub proof fn lemma_wf_opacities_valid(s: &OpacityState)
    requires
        s.wf(),
    ensures
        s@.opacities_valid(),
{
    let e = entries_of(s.per_display@);
    assert forall|k: Seq<char>| #[trigger] s@.overrides.contains_key(k) implies valid_opacity(
        s@.overrides[k] as int,
    ) by {
        let i = choose|i: int| 0 <= i < e.len() && e[i].0 == k;
        lemma_map_of_at(e, i);
        assert(valid_opacity(s.per_display@[i].opacity as int));
    }
}

} // verus!
