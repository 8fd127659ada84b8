//! The stack of colouring layers that decides how a point is coloured, and
//! the constraints placed on the user's edits of it.
//!
//! Each layer either colours a point or shades the colour given by the layers
//! before it, and applies to points inside the set, outside it, or both. A
//! shading layer therefore needs a colouring layer before it for every part of
//! the set it applies to. The stack records, for each layer, which ranges it
//! may be switched to and which positions it may be moved to, and which of
//! the per-point calculations ("implementors") each layer reads its value
//! from.
//!
//! The constraints do not guard every edit. Deleting a layer, adding one
//! that is covered, and switching the range of a colouring layer, or of a
//! shading layer that a range constraint holds, keep a usable stack usable.
//! Switching a shading layer that no range constraint holds may leave it
//! above every colouring layer of its new part of the set (a colouring layer
//! outside the set, a shading layer outside it, then a colouring layer
//! inside it: the shading layer may be switched inside), and moving a layer
//! within its position constraint may uncover a later shading layer.
//!
//! A layer's look (strength and palette) is carried as the type parameter `L`,
//! and the orbit trap of an orbit-trap layer as `T`: the rules here never read
//! them.

use vstd::prelude::*;

use crate::text::{decimal_text, push_decimal};

verus! {

broadcast use vstd::string::group_string_axioms;

// ---------------------------------------------------------------------------
// Layer ranges
// ---------------------------------------------------------------------------

/// The part of the Mandelbrot set a layer is applied to.
#[derive(Clone, Copy, PartialEq, Eq, Structural, Debug)]
pub enum LayerRange {
    InSet,
    OutSet,
    Both,
}

impl LayerRange {
    /// The range applies to points inside the set (`in_set`) or outside it.
    pub open spec fn applies(self, in_set: bool) -> bool {
        match self {
            LayerRange::InSet => in_set,
            LayerRange::OutSet => !in_set,
            LayerRange::Both => true,
        }
    }

    /// Returns whether a layer with this range applies to a point in or out
    /// of the set.
    pub fn layer_applies(&self, in_set: bool) -> (r: bool)
        ensures
            r == self.applies(in_set),
    {
        match self {
            LayerRange::InSet => in_set,
            LayerRange::OutSet => !in_set,
            LayerRange::Both => true,
        }
    }

    /// Returns whether a layer with this range is covered, given whether the
    /// inside and the outside of the set are already coloured.
    pub fn layer_covered(&self, covered_in_set: bool, covered_out_set: bool) -> (r: bool)
        ensures
            r == ((self.applies(true) ==> covered_in_set) && (self.applies(false)
                ==> covered_out_set)),
    {
        match self {
            LayerRange::Both => covered_in_set && covered_out_set,
            LayerRange::InSet => covered_in_set,
            LayerRange::OutSet => covered_out_set,
        }
    }

    /// The ranges offered to the user, in menu order.
    pub fn get_variants() -> (v: Vec<LayerRange>)
        ensures
            v@ == seq![LayerRange::InSet, LayerRange::OutSet, LayerRange::Both],
    {
        vec![LayerRange::InSet, LayerRange::OutSet, LayerRange::Both]
    }

    /// The name shown for the range.
    pub fn get_string(&self) -> (s: String)
        ensures
            s@ == match self {
                LayerRange::InSet => "In Set"@,
                LayerRange::OutSet => "Out Set"@,
                LayerRange::Both => "Both"@,
            },
    {
        match self {
            LayerRange::InSet => String::from_str("In Set"),
            LayerRange::OutSet => String::from_str("Out Set"),
            LayerRange::Both => String::from_str("Both"),
        }
    }
}

// ---------------------------------------------------------------------------
// Layer types
// ---------------------------------------------------------------------------

/// The colouring algorithm of a layer; the orbit-trap variants carry their
/// trap.
#[derive(Clone, Debug)]
pub enum LayerType<T> {
    Colour,
    ColourOrbitTrap(T),
    Shading,
    Shading3D,
    ShadingOrbitTrap(T),
}

/// A shading layer darkens the colour given by the layers before it.
pub open spec fn is_shading<T>(t: LayerType<T>) -> bool {
    match t {
        LayerType::Shading | LayerType::Shading3D | LayerType::ShadingOrbitTrap(_) => true,
        _ => false,
    }
}

/// The layer uses an orbit trap.
pub open spec fn is_trap<T>(t: LayerType<T>) -> bool {
    match t {
        LayerType::ColourOrbitTrap(_) | LayerType::ShadingOrbitTrap(_) => true,
        _ => false,
    }
}

/// Two layer types are of the same kind (their traps are not compared).
pub open spec fn same_kind<T>(a: LayerType<T>, b: LayerType<T>) -> bool {
    match (a, b) {
        (LayerType::Colour, LayerType::Colour) => true,
        (LayerType::ColourOrbitTrap(_), LayerType::ColourOrbitTrap(_)) => true,
        (LayerType::Shading, LayerType::Shading) => true,
        (LayerType::Shading3D, LayerType::Shading3D) => true,
        (LayerType::ShadingOrbitTrap(_), LayerType::ShadingOrbitTrap(_)) => true,
        _ => false,
    }
}

impl<T> LayerType<T> {
    /// The name shown for the layer type.
    pub fn get_string(&self) -> (s: String)
        ensures
            s@ == match self {
                LayerType::Colour => "Colour"@,
                LayerType::ColourOrbitTrap(_) => "Colour (orbit trap)"@,
                LayerType::Shading => "Shading"@,
                LayerType::Shading3D => "Shading 3D"@,
                LayerType::ShadingOrbitTrap(_) => "Shading (orbit trap)"@,
            },
    {
        match self {
            LayerType::Colour => String::from_str("Colour"),
            LayerType::ColourOrbitTrap(_) => String::from_str("Colour (orbit trap)"),
            LayerType::Shading => String::from_str("Shading"),
            LayerType::Shading3D => String::from_str("Shading 3D"),
            LayerType::ShadingOrbitTrap(_) => String::from_str("Shading (orbit trap)"),
        }
    }

    /// Returns whether the layer is a shading layer.
    pub fn shading_layer(&self) -> (r: bool)
        ensures
            r == is_shading(*self),
    {
        match self {
            LayerType::Shading | LayerType::Shading3D | LayerType::ShadingOrbitTrap(_) => true,
            _ => false,
        }
    }

    /// Returns whether the layer uses an orbit trap.
    pub fn is_orbit_trap(&self) -> (r: bool)
        ensures
            r == is_trap(*self),
    {
        match self {
            LayerType::ColourOrbitTrap(_) | LayerType::ShadingOrbitTrap(_) => true,
            _ => false,
        }
    }

    /// Returns the orbit trap of an orbit-trap layer, or an error for any
    /// other layer type.
    pub fn get_orbit_trap(&self) -> (r: Result<&T, &'static str>)
        ensures
            match *self {
                LayerType::ColourOrbitTrap(t) | LayerType::ShadingOrbitTrap(t) => r == Ok::<
                    &T,
                    &'static str,
                >(&t),
                _ => r matches Err(e) && e@ == "not a trap"@,
            },
    {
        proof {
            reveal_strlit("not a trap");
        }
        match self {
            LayerType::ColourOrbitTrap(trap) | LayerType::ShadingOrbitTrap(trap) => Ok(trap),
            _ => Err("not a trap"),
        }
    }

    /// Returns whether two layer types are of the same kind, whatever their
    /// traps hold.
    pub fn eq(&self, other: &Self) -> (r: bool)
        ensures
            r == same_kind(*self, *other),
    {
        match (self, other) {
            (LayerType::Colour, LayerType::Colour) => true,
            (LayerType::ColourOrbitTrap(_), LayerType::ColourOrbitTrap(_)) => true,
            (LayerType::Shading, LayerType::Shading) => true,
            (LayerType::Shading3D, LayerType::Shading3D) => true,
            (LayerType::ShadingOrbitTrap(_), LayerType::ShadingOrbitTrap(_)) => true,
            _ => false,
        }
    }
}

// ---------------------------------------------------------------------------
// Layers
// ---------------------------------------------------------------------------

/// The positions `start .. end` (end excluded) a layer may be moved to.
#[derive(Clone, Copy, PartialEq, Eq, Structural, Debug)]
pub struct PositionRange {
    pub start: usize,
    pub end: usize,
}

/// A colouring layer: its name, algorithm, range, look, and the constraints
/// that keep the layer stack valid when the user edits it.
#[derive(Clone, Debug)]
pub struct Layer<T, L> {
    pub name: String,
    pub layer_type: LayerType<T>,
    pub layer_range: LayerRange,
    /// the only ranges this layer may be switched to
    pub range_constraints: Option<Vec<LayerRange>>,
    /// the positions the layer may be moved to
    pub position_constraint: Option<PositionRange>,
    pub look: L,
}

/// The constraint list of a layer built by pushing `pushes` onto no
/// constraint: nothing when nothing is pushed.
pub open spec fn constraint_list(pushes: Seq<LayerRange>) -> Option<Seq<LayerRange>> {
    if pushes.len() == 0 {
        None
    } else {
        Some(pushes)
    }
}

/// The constraint list `o` with `pushes` appended to it: unchanged when
/// nothing is pushed.
pub open spec fn with_pushes(o: Option<Seq<LayerRange>>, pushes: Seq<LayerRange>) -> Option<
    Seq<LayerRange>,
> {
    if pushes.len() == 0 {
        o
    } else {
        match o {
            Some(v) => Some(v + pushes),
            None => Some(pushes),
        }
    }
}

proof fn lemma_with_pushes_twice(o: Option<Seq<LayerRange>>, p: Seq<LayerRange>, q: Seq<LayerRange>)
    ensures
        with_pushes(with_pushes(o, p), q) == with_pushes(o, p + q),
{
    if p.len() == 0 {
        assert(p + q == q);
    } else if q.len() == 0 {
        assert(p + q == p);
    } else {
        match o {
            Some(v) => {
                assert(v + p + q == v + (p + q));
            },
            None => {},
        }
    }
}

proof fn lemma_with_pushes_one(o: Option<Seq<LayerRange>>, c: LayerRange)
    ensures
        with_pushes(o, seq![c]) == Some(
            match o {
                Some(v) => v,
                None => Seq::<LayerRange>::empty(),
            }.push(c),
        ),
{
    match o {
        Some(v) => {
            assert(v + seq![c] == v.push(c));
        },
        None => {
            assert(seq![c] == Seq::<LayerRange>::empty().push(c));
        },
    }
}

/// Some range in `v` applies inside the set (`in_set`) or outside it.
pub open spec fn some_applies(v: Seq<LayerRange>, in_set: bool) -> bool {
    exists|k: int| 0 <= k < v.len() && (#[trigger] v[k]).applies(in_set)
}

proof fn lemma_some_applies_push(v: Seq<LayerRange>, r: LayerRange, in_set: bool)
    ensures
        some_applies(v.push(r), in_set) == (some_applies(v, in_set) || r.applies(in_set)),
{
    let w = v.push(r);
    if some_applies(v, in_set) {
        let k = choose|k: int| 0 <= k < v.len() && (#[trigger] v[k]).applies(in_set);
        assert(w[k] == v[k]);
    }
    if r.applies(in_set) {
        assert(w[v.len() as int] == r);
    }
    if some_applies(w, in_set) {
        let k = choose|k: int| 0 <= k < w.len() && (#[trigger] w[k]).applies(in_set);
        if k < v.len() {
            assert(w[k] == v[k]);
        }
    }
}

impl<T, L> Layer<T, L> {
    /// The ranges the layer is constrained to, if any.
    pub open spec fn range_constraints_spec(&self) -> Option<Seq<LayerRange>> {
        match self.range_constraints {
            Some(v) => Some(v@),
            None => None,
        }
    }

    /// The positions the layer is constrained to, if any.
    pub open spec fn position_constraint_spec(&self) -> Option<PositionRange> {
        self.position_constraint
    }

    /// The constraints listed, as a sequence (empty when there are none).
    pub open spec fn constraint_seq(&self) -> Seq<LayerRange> {
        match self.range_constraints_spec() {
            Some(v) => v,
            None => Seq::empty(),
        }
    }

    /// Creates an unconstrained layer named "Layer".
    pub fn new(layer_type: LayerType<T>, layer_range: LayerRange, look: L) -> (l: Layer<T, L>)
        ensures
            l.layer_type == layer_type,
            l.layer_range == layer_range,
            l.look == look,
            l.name@ == "Layer"@,
            l.range_constraints_spec() is None,
            l.position_constraint_spec() is None,
    {
        Layer {
            layer_type,
            layer_range,
            look,
            range_constraints: None,
            position_constraint: None,
            name: String::from_str("Layer"),
        }
    }

    /// Adds `constraint` to the ranges the layer is constrained to.
    fn set_range_constraint(&mut self, constraint: LayerRange)
        ensures
            final(self).range_constraints_spec() == Some(old(self).constraint_seq().push(
                constraint,
            )),
            final(self).position_constraint_spec() == old(self).position_constraint_spec(),
            final(self).layer_type == old(self).layer_type,
            final(self).layer_range == old(self).layer_range,
            final(self).look == old(self).look,
            final(self).name == old(self).name,
    {
        match self.range_constraints {
            Some(ref mut v) => v.push(constraint),
            None => {
                self.range_constraints = Some(vec![constraint]);
            },
        }
    }

    fn set_position_constraint(&mut self, constraint: PositionRange)
        ensures
            final(self).position_constraint_spec() == Some(constraint),
            final(self).range_constraints_spec() == old(self).range_constraints_spec(),
            final(self).layer_type == old(self).layer_type,
            final(self).layer_range == old(self).layer_range,
            final(self).look == old(self).look,
            final(self).name == old(self).name,
    {
        self.position_constraint = Some(constraint);
    }

    fn clear_contraints(&mut self)
        ensures
            final(self).position_constraint_spec() is None,
            final(self).range_constraints_spec() is None,
            final(self).layer_type == old(self).layer_type,
            final(self).layer_range == old(self).layer_range,
            final(self).look == old(self).look,
            final(self).name == old(self).name,
    {
        self.range_constraints = None;
        self.position_constraint = None;
    }

    /// Whether the layer may be switched to `range`, given its constraints:
    /// any range when it has none; a shading layer held to one part of the
    /// set may only apply to that part; a colouring layer held to one part
    /// may take any range that keeps colouring it; a layer held to both
    /// parts must apply to both.
    pub open spec fn range_allowed_spec(&self, range: LayerRange) -> bool {
        match self.range_constraints_spec() {
            None => true,
            Some(v) => {
                let in_set = some_applies(v, true);
                let out_set = some_applies(v, false);
                if !in_set && !out_set {
                    true
                } else if in_set && !out_set {
                    if is_shading(self.layer_type) {
                        range == LayerRange::InSet
                    } else {
                        range.applies(true)
                    }
                } else if !in_set && out_set {
                    if is_shading(self.layer_type) {
                        range == LayerRange::OutSet
                    } else {
                        range.applies(false)
                    }
                } else {
                    range == LayerRange::Both
                }
            },
        }
    }

    /// The parts of the set that the layer's range constraints hold it to:
    /// inside the set (`in_set`) or outside it.
    pub open spec fn holds_part(&self, in_set: bool) -> bool {
        some_applies(self.constraint_seq(), in_set)
    }

    /// What the range constraints mean: a colouring layer may take any range
    /// that keeps colouring every part it is held to; a shading layer held to
    /// some part may only take a range that shades exactly the parts it is
    /// held to; a layer held to nothing may take any range.
    pub proof fn lemma_range_allowed_meaning(&self, r: LayerRange)
        ensures
            !is_shading(self.layer_type) ==> (self.range_allowed_spec(r) <==> forall|b: bool|
                #[trigger] self.holds_part(b) ==> r.applies(b)),
            is_shading(self.layer_type) && (self.holds_part(true) || self.holds_part(false)) ==> (
            self.range_allowed_spec(r) <==> forall|b: bool| #[trigger] self.holds_part(b) == r.applies(b)),
            !self.holds_part(true) && !self.holds_part(false) ==> self.range_allowed_spec(r),
    {
        let hi = self.holds_part(true);
        let ho = self.holds_part(false);
        match self.range_constraints_spec() {
            None => {
                assert(self.constraint_seq() == Seq::<LayerRange>::empty());
                assert(!hi && !ho);
            },
            Some(v) => {
                assert(self.constraint_seq() == v);
            },
        }
        if !is_shading(self.layer_type) {
            if forall|b: bool| #[trigger] self.holds_part(b) ==> r.applies(b) {
                assert(self.holds_part(true) ==> r.applies(true));
                assert(self.holds_part(false) ==> r.applies(false));
            }
        }
        if is_shading(self.layer_type) && (hi || ho) {
            if forall|b: bool| #[trigger] self.holds_part(b) == r.applies(b) {
                assert(self.holds_part(true) == r.applies(true));
                assert(self.holds_part(false) == r.applies(false));
            }
        }
    }

    /// Returns whether the layer may be switched to `range`, given its
    /// constraints.
    pub fn range_allowed(&self, range: LayerRange) -> (r: bool)
        ensures
            r == self.range_allowed_spec(range),
    {
        match &self.range_constraints {
            None => true,
            Some(v) => {
                let mut in_set = false;
                let mut out_set = false;
                let mut i: usize = 0;
                while i < v.len()
                    invariant
                        i <= v@.len(),
                        in_set == some_applies(v@.take(i as int), true),
                        out_set == some_applies(v@.take(i as int), false),
                    decreases v@.len() - i,
                {
                    proof {
                        lemma_some_applies_push(v@.take(i as int), v@[i as int], true);
                        lemma_some_applies_push(v@.take(i as int), v@[i as int], false);
                        assert(v@.take(i as int).push(v@[i as int]) == v@.take(i + 1));
                    }
                    if v[i].layer_applies(true) {
                        in_set = true;
                    }
                    if v[i].layer_applies(false) {
                        out_set = true;
                    }
                    i = i + 1;
                }
                assert(v@.take(v@.len() as int) == v@);
                let shading = self.layer_type.shading_layer();
                if !in_set && !out_set {
                    true
                } else if in_set && !out_set {
                    if shading {
                        range == LayerRange::InSet
                    } else {
                        range.layer_applies(true)
                    }
                } else if !in_set && out_set {
                    if shading {
                        range == LayerRange::OutSet
                    } else {
                        range.layer_applies(false)
                    }
                } else {
                    range == LayerRange::Both
                }
            },
        }
    }

    /// Returns whether the layer may be moved to `position`, given its
    /// constraints.
    pub fn position_allowed(&self, position: usize) -> (r: bool)
        ensures
            r == match self.position_constraint_spec() {
                None => true,
                Some(p) => p.start <= position < p.end,
            },
    {
        match &self.position_constraint {
            None => true,
            Some(pos) => pos.start <= position && position < pos.end,
        }
    }

    /// Returns whether the layer may be deleted: shading layers always may,
    /// colouring layers only when no range constraint holds them.
    pub fn can_delete(&self) -> (r: bool)
        ensures
            r == (self.range_constraints_spec() is None || is_shading(self.layer_type)),
    {
        return self.range_constraints.is_none() || self.layer_type.shading_layer();
    }

    /// Returns whether the layer may be changed to `new_type`: a shading layer
    /// always may, any layer may become a colouring layer, and a colouring
    /// layer may become a shading one only when no range constraint holds it.
    pub fn can_change_type(&self, new_type: &LayerType<T>) -> (r: bool)
        ensures
            r == (is_shading(self.layer_type) || !is_shading(*new_type)
                || self.range_constraints_spec() is None),
    {
        if self.layer_type.shading_layer() {
            return true;
        }
        if !new_type.shading_layer() {
            return true;
        }
        self.range_constraints.is_none()
    }

    /// Switches the layer to `new` when its constraints allow it.
    pub fn change_range(&mut self, new: LayerRange)
        ensures
            final(self).layer_range == if old(self).range_allowed_spec(new) {
                new
            } else {
                old(self).layer_range
            },
            final(self).layer_type == old(self).layer_type,
            final(self).look == old(self).look,
            final(self).name == old(self).name,
            final(self).range_constraints_spec() == old(self).range_constraints_spec(),
            final(self).position_constraint_spec() == old(self).position_constraint_spec(),
    {
        if self.range_allowed(new) {
            self.layer_range = new;
        }
    }
}


// ---------------------------------------------------------------------------
// The layer stack: specifications
// ---------------------------------------------------------------------------

/// Layer `i` colours points inside the set (`in_set`) or outside it.
pub open spec fn colour_at<T, L>(s: Seq<Layer<T, L>>, i: int, in_set: bool) -> bool {
    !is_shading(s[i].layer_type) && s[i].layer_range.applies(in_set)
}

/// Layer `i` shades points inside the set (`in_set`) or outside it.
pub open spec fn shade_at<T, L>(s: Seq<Layer<T, L>>, i: int, in_set: bool) -> bool {
    is_shading(s[i].layer_type) && s[i].layer_range.applies(in_set)
}

/// The first colouring layer for `in_set` among positions `lo .. hi`.
pub open spec fn first_colour_between<T, L>(
    s: Seq<Layer<T, L>>,
    in_set: bool,
    lo: int,
    hi: int,
) -> Option<int>
    decreases hi - lo,
{
    if hi <= lo {
        None
    } else {
        match first_colour_between(s, in_set, lo, hi - 1) {
            Some(j) => Some(j),
            None => if colour_at(s, hi - 1, in_set) {
                Some(hi - 1)
            } else {
                None
            },
        }
    }
}

/// The first colouring layer for `in_set` among the first `k` layers.
pub open spec fn first_colour<T, L>(s: Seq<Layer<T, L>>, in_set: bool, k: int) -> Option<int> {
    first_colour_between(s, in_set, 0, k)
}

/// The first shading layer for `in_set` among the first `k` layers.
pub open spec fn first_shade<T, L>(s: Seq<Layer<T, L>>, in_set: bool, k: int) -> Option<int>
    decreases k,
{
    if k <= 0 {
        None
    } else {
        match first_shade(s, in_set, k - 1) {
            Some(j) => Some(j),
            None => if shade_at(s, k - 1, in_set) {
                Some(k - 1)
            } else {
                None
            },
        }
    }
}

/// The number of colouring layers for `in_set` among the first `k` layers.
pub open spec fn count_colour<T, L>(s: Seq<Layer<T, L>>, in_set: bool, k: int) -> nat
    decreases k,
{
    if k <= 0 {
        0
    } else {
        count_colour(s, in_set, k - 1) + if colour_at(s, k - 1, in_set) {
            1nat
        } else {
            0nat
        }
    }
}

/// Shading layer `i` has a colouring layer before it for every part of the
/// set it applies to.
pub open spec fn shade_covered<T, L>(s: Seq<Layer<T, L>>, i: int) -> bool {
    &&& (s[i].layer_range.applies(true) ==> first_colour(s, true, i) is Some)
    &&& (s[i].layer_range.applies(false) ==> first_colour(s, false, i) is Some)
}

/// Every shading layer has a colouring layer before it for every part of the
/// set it applies to.
pub open spec fn shading_covered<T, L>(s: Seq<Layer<T, L>>) -> bool {
    forall|i: int|
        0 <= i < s.len() && is_shading(#[trigger] s[i].layer_type) ==> shade_covered(s, i)
}

/// What checking a layer configuration gives: `Ok(true)` for a usable stack,
/// or the reason it is not.
pub open spec fn layers_check<T, L>(s: Seq<Layer<T, L>>) -> Result<bool, Seq<char>> {
    if s.len() == 0 {
        Err("there must be at least 1 layer"@)
    } else if is_shading(s[0].layer_type) {
        Err("the first layer can't be a shading layer"@)
    } else if !shading_covered(s) {
        Err("Shading layer exists that isn't covered by another layer"@)
    } else {
        Ok(true)
    }
}

/// The range a lone layer is kept away from: it may never be switched to a
/// range that leaves the other part of the set uncoloured.
pub open spec fn other_range(r: LayerRange) -> LayerRange {
    match r {
        LayerRange::InSet => LayerRange::OutSet,
        LayerRange::OutSet => LayerRange::InSet,
        LayerRange::Both => LayerRange::OutSet,
    }
}

/// The only colouring layer for `in_set` before the first shading layer for
/// `in_set`, when there is exactly one.
pub open spec fn lone_colour_before_shade<T, L>(s: Seq<Layer<T, L>>, in_set: bool) -> Option<int> {
    match first_shade(s, in_set, s.len() as int) {
        Some(f) => if count_colour(s, in_set, f) == 1 {
            first_colour(s, in_set, f)
        } else {
            None
        },
        None => None,
    }
}

/// The range constraints added to layer `i` by the first pass of placing
/// constraints: a shading layer is held to its part of the set when no
/// colouring layer colours the other part.
pub open spec fn range_pushes_first<T, L>(s: Seq<Layer<T, L>>, i: int) -> Seq<LayerRange> {
    let a = if count_colour(s, true, s.len() as int) == 0 && shade_at(s, i, false) {
        seq![LayerRange::OutSet]
    } else {
        Seq::empty()
    };
    let b = if count_colour(s, false, s.len() as int) == 0 && shade_at(s, i, true) {
        seq![LayerRange::InSet]
    } else {
        Seq::empty()
    };
    a + b
}

/// The range constraints that placing constraints gives layer `i`, in the
/// order they are added. A lone layer is kept from the range that would leave
/// part of the set uncoloured; otherwise shading layers are held to their part
/// of the set when nothing colours the other part, and the only colouring
/// layer before the first shading layer of a part is held to that part.
pub open spec fn range_pushes<T, L>(s: Seq<Layer<T, L>>, i: int) -> Seq<LayerRange> {
    if s.len() == 1 {
        seq![other_range(s[0].layer_range)]
    } else {
        let c = if lone_colour_before_shade(s, true) == Some(i) {
            seq![LayerRange::InSet]
        } else {
            Seq::empty()
        };
        let d = if lone_colour_before_shade(s, false) == Some(i) {
            seq![LayerRange::OutSet]
        } else {
            Seq::empty()
        };
        range_pushes_first(s, i) + c + d
    }
}

/// The position constraint that placing constraints gives layer `i` (or
/// `old` when it gives none).
pub open spec fn position_for<T, L>(s: Seq<Layer<T, L>>, i: int, old: Option<PositionRange>) -> Option<
    PositionRange,
> {
    let n = s.len() as int;
    if first_shade(s, false, n) is Some && first_colour(s, false, n) == Some(i) {
        Some(PositionRange { start: 0, end: (first_shade(s, false, n).unwrap() + 1) as usize })
    } else if first_shade(s, true, n) is Some && first_colour(s, true, n) == Some(i) {
        Some(PositionRange { start: 0, end: (first_shade(s, true, n).unwrap() + 1) as usize })
    } else {
        position_base(s, i, old)
    }
}

/// The position constraint the first pass gives layer `i`: a shading layer
/// may not be moved above the first colouring layer of its part of the set.
pub open spec fn position_base<T, L>(s: Seq<Layer<T, L>>, i: int, old: Option<PositionRange>) -> Option<
    PositionRange,
> {
    let n = s.len() as int;
    if shade_at(s, i, false) {
        Some(PositionRange { start: (first_colour(s, false, i).unwrap() + 1) as usize, end: (n + 1) as usize })
    } else if shade_at(s, i, true) {
        Some(PositionRange { start: (first_colour(s, true, i).unwrap() + 1) as usize, end: (n + 1) as usize })
    } else {
        old
    }
}

/// `b` has the type and range of `a`.
pub open spec fn same_shape<T, L>(a: Layer<T, L>, b: Layer<T, L>) -> bool {
    &&& b.layer_type == a.layer_type
    &&& b.layer_range == a.layer_range
}

/// `b` is `a` with only its constraints possibly changed.
pub open spec fn same_layer<T, L>(a: Layer<T, L>, b: Layer<T, L>) -> bool {
    &&& b.name == a.name
    &&& b.layer_type == a.layer_type
    &&& b.layer_range == a.layer_range
    &&& b.look == a.look
}

/// `t` is `s` with its constraints placed: every layer keeps its name, type,
/// range and look, and gets the range and position constraints above.
pub open spec fn constraints_placed<T, L>(s: Seq<Layer<T, L>>, t: Seq<Layer<T, L>>) -> bool {
    &&& t.len() == s.len()
    &&& forall|i: int|
        0 <= i < s.len() ==> {
            &&& same_layer(s[i], #[trigger] t[i])
            &&& t[i].range_constraints_spec() == constraint_list(range_pushes(s, i))
            &&& t[i].position_constraint_spec() == position_for(s, i, None)
        }
}


// ---------------------------------------------------------------------------
// Implementors
// ---------------------------------------------------------------------------

/// A per-point calculation run while a point is iterated; layers read their
/// value from one. The orbit-trap calculation uses the trap of the layer at
/// the given position.
#[derive(Clone, Copy, PartialEq, Eq, Structural, Debug)]
pub enum LayerImplementation {
    ColourImplemetor,
    OrbitTrapImplementor(usize),
    Shading3DImplementor,
}

/// The calculation layer `i` needs: the smooth iteration count for colour and
/// shading layers, the 3D normal for 3D shading, its own trap for orbit traps.
pub open spec fn needed_implementor<T, L>(s: Seq<Layer<T, L>>, i: int) -> LayerImplementation {
    match s[i].layer_type {
        LayerType::Colour | LayerType::Shading => LayerImplementation::ColourImplemetor,
        LayerType::Shading3D => LayerImplementation::Shading3DImplementor,
        _ => LayerImplementation::OrbitTrapImplementor(i as usize),
    }
}

/// The calculations made for the first `k` layers, the layer-to-calculation
/// map, and where the shared colour and 3D calculations are (if made yet).
/// Colour and shading layers share one colour calculation, 3D shading layers
/// share one 3D calculation, and every orbit-trap layer gets its own.
pub open spec fn implementor_fold<T, L>(s: Seq<Layer<T, L>>, k: int) -> (
    Seq<LayerImplementation>,
    Seq<usize>,
    Option<usize>,
    Option<usize>,
)
    decreases k,
{
    if k <= 0 {
        (Seq::empty(), Seq::empty(), None, None)
    } else {
        let prev = implementor_fold(s, k - 1);
        let imps = prev.0;
        let map = prev.1;
        let c = prev.2;
        let d = prev.3;
        match s[k - 1].layer_type {
            LayerType::Colour | LayerType::Shading => match c {
                Some(ci) => (imps, map.push(ci), c, d),
                None => (
                    imps.push(LayerImplementation::ColourImplemetor),
                    map.push(imps.len() as usize),
                    Some(imps.len() as usize),
                    d,
                ),
            },
            LayerType::Shading3D => match d {
                Some(di) => (imps, map.push(di), c, d),
                None => (
                    imps.push(LayerImplementation::Shading3DImplementor),
                    map.push(imps.len() as usize),
                    c,
                    Some(imps.len() as usize),
                ),
            },
            _ => (
                imps.push(LayerImplementation::OrbitTrapImplementor((k - 1) as usize)),
                map.push(imps.len() as usize),
                c,
                d,
            ),
        }
    }
}

/// The calculations `imps` and the map `map` serve the layers `s`: each layer
/// reads a calculation of the kind it needs, and no calculation is made twice.
pub open spec fn implementors_serve<T, L>(
    s: Seq<Layer<T, L>>,
    imps: Seq<LayerImplementation>,
    map: Seq<usize>,
) -> bool {
    &&& map.len() == s.len()
    &&& forall|i: int|
        0 <= i < s.len() ==> (#[trigger] map[i]) < imps.len() && imps[map[i] as int]
            == needed_implementor(s, i)
    &&& forall|a: int, b: int|
        0 <= a < imps.len() && 0 <= b < imps.len() && #[trigger] imps[a] == #[trigger] imps[b]
            ==> a == b
}

/// Returns the calculations the layers need and, for each layer, the
/// position of the calculation it reads.
pub fn make_implementors<T, L>(layers: &Vec<Layer<T, L>>) -> (r: (Vec<LayerImplementation>, Vec<usize>))
    ensures
        r.0@ == implementor_fold(layers@, layers@.len() as int).0,
        r.1@ == implementor_fold(layers@, layers@.len() as int).1,
{
    let mut implementors: Vec<LayerImplementation> = Vec::new();
    let mut colour_in: Option<usize> = None;
    let mut shading3d_in: Option<usize> = None;
    let mut implementor_map: Vec<usize> = Vec::new();
    let mut i: usize = 0;
    while i < layers.len()
        invariant
            i <= layers@.len(),
            implementors@ == implementor_fold(layers@, i as int).0,
            implementor_map@ == implementor_fold(layers@, i as int).1,
            colour_in == implementor_fold(layers@, i as int).2,
            shading3d_in == implementor_fold(layers@, i as int).3,
            implementors@.len() <= i,
        decreases layers@.len() - i,
    {
        proof {
            lemma_fold_sizes(layers@, i as int);
        }
        match &layers[i].layer_type {
            LayerType::Colour | LayerType::Shading => {
                match colour_in {
                    Some(ci) => {
                        implementor_map.push(ci);
                    },
                    None => {
                        implementors.push(LayerImplementation::ColourImplemetor);
                        colour_in = Some(implementors.len() - 1);
                        implementor_map.push(implementors.len() - 1);
                    },
                }
            },
            LayerType::Shading3D => {
                match shading3d_in {
                    Some(di) => {
                        implementor_map.push(di);
                    },
                    None => {
                        implementors.push(LayerImplementation::Shading3DImplementor);
                        shading3d_in = Some(implementors.len() - 1);
                        implementor_map.push(implementors.len() - 1);
                    },
                }
            },
            LayerType::ColourOrbitTrap(_) | LayerType::ShadingOrbitTrap(_) => {
                implementors.push(LayerImplementation::OrbitTrapImplementor(i));
                implementor_map.push(implementors.len() - 1);
            },
        }
        i = i + 1;
    }
    (implementors, implementor_map)
}

proof fn lemma_fold_sizes<T, L>(s: Seq<Layer<T, L>>, k: int)
    ensures
        implementor_fold(s, k).0.len() <= if k < 0 {
            0
        } else {
            k
        },
        implementor_fold(s, k).1.len() == if k < 0 {
            0
        } else {
            k
        },
    decreases k,
{
    if k > 0 {
        lemma_fold_sizes(s, k - 1);
    }
}

/// The calculations built for the first `k` layers serve those layers: each
/// layer reads one of the kind it needs, the shared colour and 3D
/// calculations are made once, and each trap layer has its own.
pub proof fn lemma_implementors_serve_layers<T, L>(s: Seq<Layer<T, L>>, k: int)
    requires
        0 <= k <= s.len(),
        s.len() <= usize::MAX,
    ensures
        implementors_serve(s.take(k), implementor_fold(s, k).0, implementor_fold(s, k).1),
        implementor_fold(s, k).2 matches Some(ci) ==> ci < implementor_fold(s, k).0.len()
            && implementor_fold(s, k).0[ci as int] == LayerImplementation::ColourImplemetor,
        implementor_fold(s, k).2 is None ==> forall|a: int|
            0 <= a < implementor_fold(s, k).0.len() ==> implementor_fold(s, k).0[a]
                != LayerImplementation::ColourImplemetor,
        implementor_fold(s, k).3 matches Some(di) ==> di < implementor_fold(s, k).0.len()
            && implementor_fold(s, k).0[di as int] == LayerImplementation::Shading3DImplementor,
        implementor_fold(s, k).3 is None ==> forall|a: int|
            0 <= a < implementor_fold(s, k).0.len() ==> implementor_fold(s, k).0[a]
                != LayerImplementation::Shading3DImplementor,
        forall|a: int|
            0 <= a < implementor_fold(s, k).0.len() ==> (#[trigger] implementor_fold(s, k).0[a] matches LayerImplementation::OrbitTrapImplementor(j) ==> j < k),
    decreases k,
{
    lemma_fold_sizes(s, k);
    if k > 0 {
        lemma_implementors_serve_layers(s, k - 1);
        lemma_fold_sizes(s, k - 1);
        let prev = implementor_fold(s, k - 1);
        let cur = implementor_fold(s, k);
        let t = s.take(k);
        let tp = s.take(k - 1);
        assert forall|i: int| 0 <= i < k - 1 implies #[trigger] t[i] == tp[i] by {}
        assert forall|i: int| 0 <= i < k - 1 implies needed_implementor(t, i) == needed_implementor(
            tp,
            i,
        ) by {}
        assert(needed_implementor(t, k - 1) == needed_implementor(s, k - 1));
        let grew = cur.0.len() == prev.0.len() + 1;
        assert(cur.1 == prev.1.push(cur.1[k - 1]));
        assert(grew ==> cur.0 == prev.0.push(cur.0[prev.0.len() as int]));
        assert(!grew ==> cur.0 == prev.0);
        match s[k - 1].layer_type {
            LayerType::Colour | LayerType::Shading => {
                assert(cur.0[cur.1[k - 1] as int] == LayerImplementation::ColourImplemetor);
                assert(grew ==> prev.2 is None);
            },
            LayerType::Shading3D => {
                assert(cur.0[cur.1[k - 1] as int] == LayerImplementation::Shading3DImplementor);
                assert(grew ==> prev.3 is None);
            },
            _ => {
                assert(grew);
            },
        }
        assert(cur.1[k - 1] < cur.0.len());
        assert forall|i: int| 0 <= i < k implies (#[trigger] cur.1[i]) < cur.0.len() && cur.0[cur.1[i] as int]
            == needed_implementor(t, i) by {
            if i < k - 1 {
                assert(cur.1[i] == prev.1[i]);
                assert(prev.1[i] < prev.0.len());
                assert(cur.0[prev.1[i] as int] == prev.0[prev.1[i] as int]);
                assert(needed_implementor(t, i) == needed_implementor(tp, i));
            }
        }
        assert forall|a: int, b: int|
            0 <= a < cur.0.len() && 0 <= b < cur.0.len() && #[trigger] cur.0[a] == #[trigger] cur.0[b]
                implies a == b by {
            if a < prev.0.len() && b < prev.0.len() {
                assert(prev.0[a] == cur.0[a] && prev.0[b] == cur.0[b]);
            } else if a < prev.0.len() {
                assert(prev.0[a] == cur.0[a]);
                assert(b == prev.0.len());
            } else if b < prev.0.len() {
                assert(prev.0[b] == cur.0[b]);
                assert(a == prev.0.len());
            }
        }
        assert forall|a: int| 0 <= a < cur.0.len() implies (#[trigger] cur.0[a] matches LayerImplementation::OrbitTrapImplementor(j) ==> j < k) by {
            if a < prev.0.len() {
                assert(prev.0[a] == cur.0[a]);
            }
        }
    }
}

// ---------------------------------------------------------------------------
// The layer stack
// ---------------------------------------------------------------------------

/// The name "Layer {n}" given to the `n`-th layer of a stack.
pub open spec fn layer_name(n: nat) -> Seq<char> {
    "Layer "@ + decimal_text(n)
}

/// Returns "Layer {n}".
fn numbered_layer_name(n: usize) -> (s: String)
    ensures
        s@ == layer_name(n as nat),
{
    let mut s = String::from_str("Layer ");
    push_decimal(&mut s, n);
    s
}

/// A stack of layers colouring the set, in order of application, with the
/// calculations they read from.
#[derive(Clone, Debug)]
pub struct Layers<T, L> {
    pub layers: Vec<Layer<T, L>>,
    pub implementors: Vec<LayerImplementation>,
    pub implementor_map: Vec<usize>,
    pub arb_precision: bool,
}

impl<T, L> Layers<T, L> {
    /// The calculations and the layer-to-calculation map are those built from
    /// the current layers.
    pub open spec fn implementors_current(&self) -> bool {
        &&& self.implementors@ == implementor_fold(self.layers@, self.layers@.len() as int).0
        &&& self.implementor_map@ == implementor_fold(self.layers@, self.layers@.len() as int).1
    }

    /// Returns whether the given layer configuration is usable: at least one
    /// layer, a colouring layer first, and a colouring layer before every
    /// shading layer for each part of the set it shades.
    pub fn valid_layers(layers: &Vec<Layer<T, L>>) -> (r: Result<bool, &'static str>)
        ensures
            match layers_check(layers@) {
                Ok(b) => r == Ok::<bool, &'static str>(b),
                Err(msg) => r matches Err(e) && e@ == msg,
            },
    {
        proof {
            reveal_strlit("there must be at least 1 layer");
            reveal_strlit("the first layer can't be a shading layer");
            reveal_strlit("Shading layer exists that isn't covered by another layer");
        }
        if layers.len() == 0 {
            return Err("there must be at least 1 layer");
        }
        if layers[0].layer_type.shading_layer() {
            return Err("the first layer can't be a shading layer");
        }
        let mut non_shade_in_set = false;
        let mut non_shade_out_set = false;
        let mut i: usize = 0;
        while i < layers.len()
            invariant
                i <= layers@.len(),
                layers@.len() > 0,
                !is_shading(layers@[0].layer_type),
                non_shade_in_set == (first_colour(layers@, true, i as int) is Some),
                non_shade_out_set == (first_colour(layers@, false, i as int) is Some),
                forall|j: int|
                    0 <= j < i && is_shading(#[trigger] layers@[j].layer_type) ==> shade_covered(
                        layers@,
                        j,
                    ),
            decreases layers@.len() - i,
        {
            let layer = &layers[i];
            if layer.layer_type.shading_layer() {
                if !layer.layer_range.layer_covered(non_shade_in_set, non_shade_out_set) {
                    assert(!shading_covered(layers@)) by {
                        assert(is_shading(layers@[i as int].layer_type));
                    }
                    return Err("Shading layer exists that isn't covered by another layer");
                }
            } else {
                match layer.layer_range {
                    LayerRange::Both => {
                        non_shade_in_set = true;
                        non_shade_out_set = true;
                    },
                    LayerRange::InSet => {
                        non_shade_in_set = true;
                    },
                    LayerRange::OutSet => {
                        non_shade_out_set = true;
                    },
                }
            }
            i = i + 1;
        }
        Ok(true)
    }
}


// ---------------------------------------------------------------------------
// Facts about the first / counting functions
// ---------------------------------------------------------------------------

/// What the first colouring layer among `lo .. hi` is.
pub proof fn lemma_first_colour_between<T, L>(s: Seq<Layer<T, L>>, in_set: bool, lo: int, hi: int)
    ensures
        first_colour_between(s, in_set, lo, hi) matches Some(j) ==> lo <= j < hi && colour_at(
            s,
            j,
            in_set,
        ) && forall|k: int| lo <= k < j ==> !#[trigger] colour_at(s, k, in_set),
        first_colour_between(s, in_set, lo, hi) is None ==> forall|k: int|
            lo <= k < hi ==> !#[trigger] colour_at(s, k, in_set),
    decreases hi - lo,
{
    if hi > lo {
        lemma_first_colour_between(s, in_set, lo, hi - 1);
    }
}

/// What the first shading layer among the first `k` is.
pub proof fn lemma_first_shade<T, L>(s: Seq<Layer<T, L>>, in_set: bool, k: int)
    ensures
        first_shade(s, in_set, k) matches Some(j) ==> 0 <= j < k && shade_at(s, j, in_set)
            && forall|m: int| 0 <= m < j ==> !#[trigger] shade_at(s, m, in_set),
        first_shade(s, in_set, k) is None ==> forall|m: int|
            0 <= m < k ==> !#[trigger] shade_at(s, m, in_set),
    decreases k,
{
    if k > 0 {
        lemma_first_shade(s, in_set, k - 1);
    }
}

/// A count of one colouring layer is that first colouring layer alone.
proof fn lemma_count_colour_bounds<T, L>(s: Seq<Layer<T, L>>, in_set: bool, k: int)
    ensures
        count_colour(s, in_set, k) <= if k < 0 {
            0
        } else {
            k
        },
        count_colour(s, in_set, k) == 0 <==> first_colour(s, in_set, k) is None,
    decreases k,
{
    if k > 0 {
        lemma_count_colour_bounds(s, in_set, k - 1);
    }
}

proof fn lemma_single_colour<T, L>(s: Seq<Layer<T, L>>, in_set: bool, f: int)
    requires
        count_colour(s, in_set, f) == 1,
    ensures
        first_colour(s, in_set, f) == Some(
            match first_colour_between(s, in_set, 1, f) {
                Some(j) => j,
                None => 0,
            },
        ),
    decreases f,
{
    lemma_count_colour_bounds(s, in_set, f);
    if f > 0 {
        lemma_count_colour_bounds(s, in_set, f - 1);
        lemma_first_colour_between(s, in_set, 0, f - 1);
        lemma_first_colour_between(s, in_set, 1, f - 1);
        if colour_at(s, f - 1, in_set) {
            if f - 1 >= 1 {
                assert(first_colour_between(s, in_set, 1, f - 1) is None);
            }
        } else {
            lemma_single_colour(s, in_set, f - 1);
        }
    }
}

// ---------------------------------------------------------------------------
// The layer stack: placing constraints
// ---------------------------------------------------------------------------

impl<T, L> Layers<T, L> {
    fn clear_constraints(layers: &mut Vec<Layer<T, L>>)
        ensures
            final(layers)@.len() == old(layers)@.len(),
            forall|i: int|
                0 <= i < old(layers)@.len() ==> {
                    &&& same_layer(old(layers)@[i], #[trigger] final(layers)@[i])
                    &&& final(layers)@[i].range_constraints_spec() is None
                    &&& final(layers)@[i].position_constraint_spec() is None
                },
    {
        let ghost s0 = layers@;
        let mut i: usize = 0;
        while i < layers.len()
            invariant
                layers@.len() == s0.len(),
                i <= s0.len(),
                forall|j: int|
                    0 <= j < i ==> {
                        &&& same_layer(s0[j], #[trigger] layers@[j])
                        &&& layers@[j].range_constraints_spec() is None
                        &&& layers@[j].position_constraint_spec() is None
                    },
                forall|j: int| i <= j < s0.len() ==> #[trigger] layers@[j] == s0[j],
            decreases s0.len() - i,
        {
            layers[i].clear_contraints();
            i = i + 1;
        }
    }

    /// Returns how many colouring layers for `in_set` come before position
    /// `first_shade_i`, and (when there is exactly one) where it is.
    fn get_colours_before_first_shade(
        layers: &Vec<Layer<T, L>>,
        first_shade_i: usize,
        in_set: bool,
    ) -> (r: (usize, usize))
        requires
            first_shade_i <= layers@.len(),
        ensures
            r.1 == count_colour(layers@, in_set, first_shade_i as int),
            r.1 == 1 ==> first_colour(layers@, in_set, first_shade_i as int) == Some(r.0 as int),
    {
        let mut first_colour_i: usize = 0;
        let mut colours_before_first_shade: usize = 0;
        let mut i: usize = 0;
        while i < first_shade_i
            invariant
                first_shade_i <= layers@.len(),
                i <= first_shade_i,
                colours_before_first_shade == count_colour(layers@, in_set, i as int),
                colours_before_first_shade <= i,
                first_colour_i == match first_colour_between(layers@, in_set, 1, i as int) {
                    Some(j) => j as usize,
                    None => 0usize,
                },
            decreases first_shade_i - i,
        {
            proof {
                lemma_count_colour_bounds(layers@, in_set, i as int);
                lemma_first_colour_between(layers@, in_set, 1, i as int);
            }
            let layer = &layers[i];
            if !layer.layer_type.shading_layer() && layer.layer_range.layer_applies(in_set) {
                colours_before_first_shade = colours_before_first_shade + 1;
                if first_colour_i == 0 {
                    first_colour_i = i;
                }
            }
            i = i + 1;
        }
        proof {
            lemma_count_colour_bounds(layers@, in_set, first_shade_i as int);
            lemma_first_colour_between(layers@, in_set, 1, first_shade_i as int);
            if colours_before_first_shade == 1 {
                lemma_single_colour(layers@, in_set, first_shade_i as int);
            }
        }
        (first_colour_i, colours_before_first_shade)
    }
}


impl<T, L> Layers<T, L> {
    /// Returns how many layers colour points inside (`in_set`) or outside the set.
    fn count_colours(layers: &Vec<Layer<T, L>>, in_set: bool) -> (n: usize)
        ensures
            n == count_colour(layers@, in_set, layers@.len() as int),
    {
        let mut n: usize = 0;
        let mut i: usize = 0;
        while i < layers.len()
            invariant
                i <= layers@.len(),
                n == count_colour(layers@, in_set, i as int),
                n <= i,
            decreases layers@.len() - i,
        {
            if !layers[i].layer_type.shading_layer() && layers[i].layer_range.layer_applies(in_set) {
                n = n + 1;
            }
            i = i + 1;
        }
        n
    }

    /// Returns the position of the first layer shading points inside
    /// (`in_set`) or outside the set, if any.
    fn first_shade_index(layers: &Vec<Layer<T, L>>, in_set: bool) -> (r: Option<usize>)
        ensures
            r matches Some(j) ==> first_shade(layers@, in_set, layers@.len() as int) == Some(j as int),
            r is None ==> first_shade(layers@, in_set, layers@.len() as int) is None,
    {
        let mut i: usize = 0;
        while i < layers.len()
            invariant
                i <= layers@.len(),
                first_shade(layers@, in_set, i as int) is None,
            decreases layers@.len() - i,
        {
            if layers[i].layer_type.shading_layer() && layers[i].layer_range.layer_applies(in_set) {
                proof {
                    lemma_first_shade_stays(layers@, in_set, i as int + 1, layers@.len() as int);
                }
                return Some(i);
            }
            i = i + 1;
        }
        None
    }

    /// Appends the range constraints to every layer's list.
    fn place_range_constraints(layers: &mut Vec<Layer<T, L>>)
        ensures
            final(layers)@.len() == old(layers)@.len(),
            forall|i: int|
                0 <= i < old(layers)@.len() ==> {
                    &&& same_layer(old(layers)@[i], #[trigger] final(layers)@[i])
                    &&& final(layers)@[i].position_constraint_spec() == old(
                        layers,
                    )@[i].position_constraint_spec()
                    &&& final(layers)@[i].range_constraints_spec() == with_pushes(
                        old(layers)@[i].range_constraints_spec(),
                        range_pushes(old(layers)@, i),
                    )
                },
    {
        let ghost s0 = layers@;
        let n = layers.len();
        if n == 1 {
            let constraint = match layers[0].layer_range {
                LayerRange::InSet => LayerRange::OutSet,
                LayerRange::OutSet => LayerRange::InSet,
                LayerRange::Both => LayerRange::OutSet,
            };
            layers[0].set_range_constraint(constraint);
            proof {
                lemma_with_pushes_one(s0[0].range_constraints_spec(), constraint);
                assert(seq![constraint] == range_pushes(s0, 0));
            }
            return;
        }
        let colour_in_set = Layers::count_colours(layers, true);
        let colour_out_set = Layers::count_colours(layers, false);
        let first_shade_in_set = Layers::first_shade_index(layers, true);
        let first_shade_out_set = Layers::first_shade_index(layers, false);
        let in_target: Option<usize> = match first_shade_in_set {
            Some(first_shade_i) => {
                proof {
                    lemma_first_shade(s0, true, n as int);
                }
                let (first_colour_i, colours) = Layers::get_colours_before_first_shade(
                    layers,
                    first_shade_i,
                    true,
                );
                if colours == 1 {
                    proof {
                        lemma_first_colour_between(s0, true, 0, first_shade_i as int);
                    }
                    Some(first_colour_i)
                } else {
                    None
                }
            },
            None => None,
        };
        let out_target: Option<usize> = match first_shade_out_set {
            Some(first_shade_i) => {
                proof {
                    lemma_first_shade(s0, false, n as int);
                }
                let (first_colour_i, colours) = Layers::get_colours_before_first_shade(
                    layers,
                    first_shade_i,
                    false,
                );
                if colours == 1 {
                    proof {
                        lemma_first_colour_between(s0, false, 0, first_shade_i as int);
                    }
                    Some(first_colour_i)
                } else {
                    None
                }
            },
            None => None,
        };
        assert(in_target matches Some(t) ==> lone_colour_before_shade(s0, true) == Some(t as int) && t < n);
        assert(in_target is None ==> lone_colour_before_shade(s0, true) is None);
        assert(out_target matches Some(t) ==> lone_colour_before_shade(s0, false) == Some(t as int) && t < n);
        assert(out_target is None ==> lone_colour_before_shade(s0, false) is None);
        // shading layers are held to their part of the set when nothing
        // colours the other part
        let mut i: usize = 0;
        while i < n
            invariant
                n == s0.len(),
                n != 1,
                layers@.len() == n,
                i <= n,
                colour_in_set == count_colour(s0, true, n as int),
                colour_out_set == count_colour(s0, false, n as int),
                forall|j: int|
                    0 <= j < i ==> {
                        &&& same_layer(s0[j], #[trigger] layers@[j])
                        &&& layers@[j].position_constraint_spec() == s0[j].position_constraint_spec()
                        &&& layers@[j].range_constraints_spec() == with_pushes(
                            s0[j].range_constraints_spec(),
                            range_pushes_first(s0, j),
                        )
                    },
                forall|j: int| i <= j < n ==> #[trigger] layers@[j] == s0[j],
            decreases n - i,
        {
            let ghost o = layers@[i as int].range_constraints_spec();
            let shading = layers[i].layer_type.shading_layer();
            let applies_out = layers[i].layer_range.layer_applies(false);
            let applies_in = layers[i].layer_range.layer_applies(true);
            let ghost a: Seq<LayerRange> = if colour_in_set == 0 && shading && applies_out {
                seq![LayerRange::OutSet]
            } else {
                Seq::empty()
            };
            let ghost b: Seq<LayerRange> = if colour_out_set == 0 && shading && applies_in {
                seq![LayerRange::InSet]
            } else {
                Seq::empty()
            };
            if colour_in_set == 0 && shading && applies_out {
                layers[i].set_range_constraint(LayerRange::OutSet);
                proof {
                    lemma_with_pushes_one(o, LayerRange::OutSet);
                }
            }
            assert(layers@[i as int].range_constraints_spec() == with_pushes(o, a));
            let ghost o1 = layers@[i as int].range_constraints_spec();
            if colour_out_set == 0 && shading && applies_in {
                layers[i].set_range_constraint(LayerRange::InSet);
                proof {
                    lemma_with_pushes_one(o1, LayerRange::InSet);
                }
            }
            proof {
                assert(layers@[i as int].range_constraints_spec() == with_pushes(o1, b));
                lemma_with_pushes_twice(o, a, b);
                assert(range_pushes_first(s0, i as int) == a + b);
            }
            i = i + 1;
        }
        let ghost s1 = layers@;
        // the only colouring layer before the first shading layer of a part
        // is held to that part
        if let Some(t) = in_target {
            proof {
                lemma_with_pushes_one(layers@[t as int].range_constraints_spec(), LayerRange::InSet);
            }
            layers[t].set_range_constraint(LayerRange::InSet);
        }
        let ghost s2 = layers@;
        if let Some(t) = out_target {
            proof {
                lemma_with_pushes_one(layers@[t as int].range_constraints_spec(), LayerRange::OutSet);
            }
            layers[t].set_range_constraint(LayerRange::OutSet);
        }
        assert forall|i: int| 0 <= i < n implies {
            &&& same_layer(s0[i], #[trigger] layers@[i])
            &&& layers@[i].position_constraint_spec() == s0[i].position_constraint_spec()
            &&& layers@[i].range_constraints_spec() == with_pushes(
                s0[i].range_constraints_spec(),
                range_pushes(s0, i),
            )
        } by {
            let o = s0[i].range_constraints_spec();
            let first = range_pushes_first(s0, i);
            let c: Seq<LayerRange> = if lone_colour_before_shade(s0, true) == Some(i) {
                seq![LayerRange::InSet]
            } else {
                Seq::empty()
            };
            let d: Seq<LayerRange> = if lone_colour_before_shade(s0, false) == Some(i) {
                seq![LayerRange::OutSet]
            } else {
                Seq::empty()
            };
            assert(range_pushes(s0, i) == first + c + d);
            assert(s1[i].range_constraints_spec() == with_pushes(o, first));
            if lone_colour_before_shade(s0, true) == Some(i) {
                lemma_with_pushes_one(s1[i].range_constraints_spec(), LayerRange::InSet);
            } else {
                assert(s2[i] == s1[i]);
            }
            assert(s2[i].range_constraints_spec() == with_pushes(with_pushes(o, first), c));
            if lone_colour_before_shade(s0, false) == Some(i) {
                lemma_with_pushes_one(s2[i].range_constraints_spec(), LayerRange::OutSet);
            } else {
                assert(layers@[i] == s2[i]);
            }
            lemma_with_pushes_twice(o, first, c);
            lemma_with_pushes_twice(o, first + c, d);
        }
    }
}

proof fn lemma_first_shade_stays<T, L>(s: Seq<Layer<T, L>>, in_set: bool, k: int, m: int)
    requires
        0 < k <= m,
        first_shade(s, in_set, k) is Some,
    ensures
        first_shade(s, in_set, m) == first_shade(s, in_set, k),
    decreases m - k,
{
    if m > k {
        lemma_first_shade_stays(s, in_set, k, m - 1);
    }
}


impl<T, L> Layers<T, L> {
    /// Adds the position constraints: a shading layer may not move above the
    /// first colouring layer of its part of the set, and that colouring layer
    /// may not move below the first shading layer of that part.
    fn place_position_constraints(layers: &mut Vec<Layer<T, L>>)
        requires
            shading_covered(old(layers)@),
            old(layers)@.len() < usize::MAX,
        ensures
            final(layers)@.len() == old(layers)@.len(),
            forall|i: int|
                0 <= i < old(layers)@.len() ==> {
                    &&& same_layer(old(layers)@[i], #[trigger] final(layers)@[i])
                    &&& final(layers)@[i].range_constraints_spec() == old(
                        layers,
                    )@[i].range_constraints_spec()
                    &&& final(layers)@[i].position_constraint_spec() == position_for(
                        old(layers)@,
                        i,
                        old(layers)@[i].position_constraint_spec(),
                    )
                },
    {
        let ghost s0 = layers@;
        let n = layers.len();
        let end = n + 1;
        let mut first_shade_in_set: Option<usize> = None;
        let mut first_colour_in_set: Option<usize> = None;
        let mut first_shade_out_set: Option<usize> = None;
        let mut first_colour_out_set: Option<usize> = None;
        let mut i: usize = 0;
        while i < n
            invariant
                n == s0.len(),
                n < usize::MAX,
                end == n + 1,
                shading_covered(s0),
                layers@.len() == n,
                i <= n,
                first_colour_in_set matches Some(j) ==> first_colour(s0, true, i as int) == Some(j as int),
                first_colour_in_set is None ==> first_colour(s0, true, i as int) is None,
                first_colour_out_set matches Some(j) ==> first_colour(s0, false, i as int) == Some(j as int),
                first_colour_out_set is None ==> first_colour(s0, false, i as int) is None,
                first_shade_in_set matches Some(j) ==> first_shade(s0, true, i as int) == Some(j as int),
                first_shade_in_set is None ==> first_shade(s0, true, i as int) is None,
                first_shade_out_set matches Some(j) ==> first_shade(s0, false, i as int) == Some(j as int),
                first_shade_out_set is None ==> first_shade(s0, false, i as int) is None,
                forall|j: int|
                    0 <= j < i ==> {
                        &&& same_layer(s0[j], #[trigger] layers@[j])
                        &&& layers@[j].range_constraints_spec() == s0[j].range_constraints_spec()
                        &&& layers@[j].position_constraint_spec() == position_base(
                            s0,
                            j,
                            s0[j].position_constraint_spec(),
                        )
                    },
                forall|j: int| i <= j < n ==> #[trigger] layers@[j] == s0[j],
            decreases n - i,
        {
            proof {
                lemma_first_colour_between(s0, true, 0, i as int);
                lemma_first_colour_between(s0, false, 0, i as int);
            }
            let shading = layers[i].layer_type.shading_layer();
            let applies_in = layers[i].layer_range.layer_applies(true);
            let applies_out = layers[i].layer_range.layer_applies(false);
            if !shading && applies_in && first_colour_in_set.is_none() {
                first_colour_in_set = Some(i);
            }
            if !shading && applies_out && first_colour_out_set.is_none() {
                first_colour_out_set = Some(i);
            }
            if shading && applies_in {
                assert(shade_covered(s0, i as int)) by {
                    assert(is_shading(s0[i as int].layer_type));
                }
                let first_colour = match first_colour_in_set {
                    Some(f) => f,
                    None => 0,
                };
                assert(first_colour_in_set is Some);
                layers[i].set_position_constraint(PositionRange { start: first_colour + 1, end });
                if first_shade_in_set.is_none() {
                    first_shade_in_set = Some(i);
                }
            }
            if shading && applies_out {
                assert(shade_covered(s0, i as int)) by {
                    assert(is_shading(s0[i as int].layer_type));
                }
                let first_colour = match first_colour_out_set {
                    Some(f) => f,
                    None => 0,
                };
                assert(first_colour_out_set is Some);
                layers[i].set_position_constraint(PositionRange { start: first_colour + 1, end });
                if first_shade_out_set.is_none() {
                    first_shade_out_set = Some(i);
                }
            }
            i = i + 1;
        }
        let ghost s1 = layers@;
        proof {
            lemma_first_colour_between(s0, true, 0, n as int);
            lemma_first_colour_between(s0, false, 0, n as int);
            lemma_first_shade(s0, true, n as int);
            lemma_first_shade(s0, false, n as int);
        }
        // the first colouring layer of a part may not move below the first
        // shading layer of that part
        if let Some(shade_i) = first_shade_in_set {
            assert(shade_covered(s0, shade_i as int)) by {
                assert(is_shading(s0[shade_i as int].layer_type));
            }
            proof {
                lemma_first_colour_is_some_before(s0, true, shade_i as int, n as int);
            }
            let first = match first_colour_in_set {
                Some(f) => f,
                None => 0,
            };
            layers[first].set_position_constraint(PositionRange { start: 0, end: shade_i + 1 });
        }
        let ghost s2 = layers@;
        if let Some(shade_i) = first_shade_out_set {
            assert(shade_covered(s0, shade_i as int)) by {
                assert(is_shading(s0[shade_i as int].layer_type));
            }
            proof {
                lemma_first_colour_is_some_before(s0, false, shade_i as int, n as int);
            }
            let first = match first_colour_out_set {
                Some(f) => f,
                None => 0,
            };
            layers[first].set_position_constraint(PositionRange { start: 0, end: shade_i + 1 });
        }
        assert forall|i: int| 0 <= i < n implies {
            &&& same_layer(s0[i], #[trigger] layers@[i])
            &&& layers@[i].range_constraints_spec() == s0[i].range_constraints_spec()
            &&& layers@[i].position_constraint_spec() == position_for(
                s0,
                i,
                s0[i].position_constraint_spec(),
            )
        } by {
            if first_colour(s0, true, n as int) == Some(i) || first_colour(s0, false, n as int) == Some(i) {
                assert(!is_shading(s0[i].layer_type));
                assert(!shade_at(s0, i, true) && !shade_at(s0, i, false));
            }
        }
    }
}

proof fn lemma_first_colour_is_some_before<T, L>(s: Seq<Layer<T, L>>, in_set: bool, k: int, m: int)
    requires
        0 <= k <= m,
        first_colour(s, in_set, k) is Some,
    ensures
        first_colour(s, in_set, m) == first_colour(s, in_set, k),
    decreases m - k,
{
    if m > k {
        lemma_first_colour_is_some_before(s, in_set, k, m - 1);
    }
}


impl<T, L> Layers<T, L> {
    /// Replaces every layer's constraints by those that keep the stack usable
    /// under the user's edits (see `range_pushes` and `position_for`).
    pub fn place_constraints(layers: &mut Vec<Layer<T, L>>)
        requires
            shading_covered(old(layers)@),
            old(layers)@.len() < usize::MAX,
        ensures
            constraints_placed(old(layers)@, final(layers)@),
    {
        let ghost s0 = layers@;
        Layers::clear_constraints(layers);
        let ghost s1 = layers@;
        proof {
            assert forall|i: int| 0 <= i < s0.len() implies same_shape(s0[i], #[trigger] s1[i]) by {
                assert(same_layer(s0[i], s1[i]));
            }
            lemma_same_shape_specs(s0, s1);
        }
        Layers::place_range_constraints(layers);
        let ghost s2 = layers@;
        proof {
            assert forall|i: int| 0 <= i < s0.len() implies same_shape(s0[i], #[trigger] s2[i]) by {
                assert(same_layer(s0[i], s1[i]));
                assert(same_layer(s1[i], s2[i]));
            }
            lemma_same_shape_specs(s0, s2);
        }
        Layers::place_position_constraints(layers);
        assert forall|i: int| 0 <= i < s0.len() implies {
            &&& same_layer(s0[i], #[trigger] layers@[i])
            &&& layers@[i].range_constraints_spec() == constraint_list(range_pushes(s0, i))
            &&& layers@[i].position_constraint_spec() == position_for(s0, i, None)
        } by {
            assert(same_layer(s0[i], s1[i]));
            assert(same_layer(s1[i], s2[i]));
            assert(s2[i].position_constraint_spec() is None);
            assert(range_pushes(s1, i) == range_pushes(s0, i));
            assert(position_for(s2, i, s2[i].position_constraint_spec()) == position_for(s0, i, None));
        }
    }

    /// Rebuilds the calculations the layers read from.
    pub fn update_implementors(&mut self)
        ensures
            final(self).layers == old(self).layers,
            final(self).arb_precision == old(self).arb_precision,
            final(self).implementors_current(),
    {
        let (implementors, implementor_map) = make_implementors(&self.layers);
        self.implementors = implementors;
        self.implementor_map = implementor_map;
    }
}

/// Two stacks whose layers have the same types and ranges have the same
/// colouring and shading layers.
proof fn lemma_same_shape_specs<T, L>(s: Seq<Layer<T, L>>, t: Seq<Layer<T, L>>)
    requires
        s.len() == t.len(),
        forall|i: int| 0 <= i < s.len() ==> same_shape(s[i], #[trigger] t[i]),
    ensures
        forall|i: int, b: bool| 0 <= i < s.len() ==> #[trigger] colour_at(t, i, b) == colour_at(s, i, b),
        forall|i: int, b: bool| 0 <= i < s.len() ==> #[trigger] shade_at(t, i, b) == shade_at(s, i, b),
        forall|k: int, b: bool| 0 <= k <= s.len() ==> #[trigger] first_colour(t, b, k) == first_colour(s, b, k),
        forall|k: int, b: bool| 0 <= k <= s.len() ==> #[trigger] first_shade(t, b, k) == first_shade(s, b, k),
        forall|k: int, b: bool| 0 <= k <= s.len() ==> #[trigger] count_colour(t, b, k) == count_colour(s, b, k),
        forall|i: int, o: Option<PositionRange>| 0 <= i < s.len() ==> #[trigger] position_for(t, i, o) == position_for(s, i, o),
        shading_covered(t) == shading_covered(s),
        forall|i: int| 0 <= i < s.len() ==> #[trigger] range_pushes(t, i) == range_pushes(s, i),
{
    assert forall|i: int, b: bool| 0 <= i < s.len() implies #[trigger] colour_at(t, i, b) == colour_at(s, i, b) by {
        assert(same_shape(s[i], t[i]));
    }
    assert forall|i: int, b: bool| 0 <= i < s.len() implies #[trigger] shade_at(t, i, b) == shade_at(s, i, b) by {
        assert(same_shape(s[i], t[i]));
    }
    assert forall|k: int, b: bool| 0 <= k <= s.len() implies #[trigger] first_colour(t, b, k) == first_colour(s, b, k) by {
        lemma_same_shape_first_colour(s, t, b, k);
    }
    assert forall|k: int, b: bool| 0 <= k <= s.len() implies #[trigger] first_shade(t, b, k) == first_shade(s, b, k) by {
        lemma_same_shape_first_shade(s, t, b, k);
    }
    assert forall|k: int, b: bool| 0 <= k <= s.len() implies #[trigger] count_colour(t, b, k) == count_colour(s, b, k) by {
        lemma_same_shape_count(s, t, b, k);
    }
    assert forall|i: int, o: Option<PositionRange>| 0 <= i < s.len() implies #[trigger] position_for(t, i, o) == position_for(s, i, o) by {
        assert(first_colour(t, true, i) == first_colour(s, true, i));
        assert(first_colour(t, false, i) == first_colour(s, false, i));
        assert(first_colour(t, true, s.len() as int) == first_colour(s, true, s.len() as int));
        assert(first_colour(t, false, s.len() as int) == first_colour(s, false, s.len() as int));
        assert(first_shade(t, true, s.len() as int) == first_shade(s, true, s.len() as int));
        assert(first_shade(t, false, s.len() as int) == first_shade(s, false, s.len() as int));
        assert(shade_at(t, i, true) == shade_at(s, i, true));
        assert(shade_at(t, i, false) == shade_at(s, i, false));
    }
    assert forall|i: int| 0 <= i < s.len() implies #[trigger] range_pushes(t, i) == range_pushes(s, i) by {
        let n = s.len() as int;
        assert(count_colour(t, true, n) == count_colour(s, true, n));
        assert(count_colour(t, false, n) == count_colour(s, false, n));
        assert(shade_at(t, i, true) == shade_at(s, i, true));
        assert(shade_at(t, i, false) == shade_at(s, i, false));
        assert(first_shade(t, true, n) == first_shade(s, true, n));
        assert(first_shade(t, false, n) == first_shade(s, false, n));
        lemma_first_shade(s, true, n);
        lemma_first_shade(s, false, n);
        if let Some(f) = first_shade(s, true, n) {
            assert(count_colour(t, true, f) == count_colour(s, true, f));
            assert(first_colour(t, true, f) == first_colour(s, true, f));
        }
        if let Some(f) = first_shade(s, false, n) {
            assert(count_colour(t, false, f) == count_colour(s, false, f));
            assert(first_colour(t, false, f) == first_colour(s, false, f));
        }
        assert(lone_colour_before_shade(t, true) == lone_colour_before_shade(s, true));
        assert(lone_colour_before_shade(t, false) == lone_colour_before_shade(s, false));
        if n > 0 {
            assert(same_shape(s[0], t[0]));
        }
    }
    if shading_covered(s) {
        assert forall|i: int| 0 <= i < t.len() && is_shading(#[trigger] t[i].layer_type) implies shade_covered(t, i) by {
            assert(same_shape(s[i], t[i]));
            assert(is_shading(s[i].layer_type));
            assert(first_colour(t, true, i) == first_colour(s, true, i));
            assert(first_colour(t, false, i) == first_colour(s, false, i));
        }
    }
    if shading_covered(t) {
        assert forall|i: int| 0 <= i < s.len() && is_shading(#[trigger] s[i].layer_type) implies shade_covered(s, i) by {
            assert(same_shape(s[i], t[i]));
            assert(is_shading(t[i].layer_type));
            assert(first_colour(t, true, i) == first_colour(s, true, i));
            assert(first_colour(t, false, i) == first_colour(s, false, i));
        }
    }
}

proof fn lemma_same_shape_first_colour<T, L>(s: Seq<Layer<T, L>>, t: Seq<Layer<T, L>>, b: bool, k: int)
    requires
        s.len() == t.len(),
        0 <= k <= s.len(),
        forall|i: int| 0 <= i < s.len() ==> same_shape(s[i], #[trigger] t[i]),
    ensures
        first_colour_between(t, b, 0, k) == first_colour_between(s, b, 0, k),
    decreases k,
{
    if k > 0 {
        lemma_same_shape_first_colour(s, t, b, k - 1);
        assert(same_shape(s[k - 1], t[k - 1]));
    }
}

proof fn lemma_same_shape_first_shade<T, L>(s: Seq<Layer<T, L>>, t: Seq<Layer<T, L>>, b: bool, k: int)
    requires
        s.len() == t.len(),
        0 <= k <= s.len(),
        forall|i: int| 0 <= i < s.len() ==> same_shape(s[i], #[trigger] t[i]),
    ensures
        first_shade(t, b, k) == first_shade(s, b, k),
    decreases k,
{
    if k > 0 {
        lemma_same_shape_first_shade(s, t, b, k - 1);
        assert(same_shape(s[k - 1], t[k - 1]));
    }
}

proof fn lemma_same_shape_count<T, L>(s: Seq<Layer<T, L>>, t: Seq<Layer<T, L>>, b: bool, k: int)
    requires
        s.len() == t.len(),
        0 <= k <= s.len(),
        forall|i: int| 0 <= i < s.len() ==> same_shape(s[i], #[trigger] t[i]),
    ensures
        count_colour(t, b, k) == count_colour(s, b, k),
    decreases k,
{
    if k > 0 {
        lemma_same_shape_count(s, t, b, k - 1);
        assert(same_shape(s[k - 1], t[k - 1]));
    }
}


/// `t` is `s` with constraints placed, each layer keeping its name unless
/// noted otherwise by the caller.
pub open spec fn placed_keeping_looks<T, L>(s: Seq<Layer<T, L>>, t: Seq<Layer<T, L>>) -> bool {
    &&& t.len() == s.len()
    &&& forall|i: int|
        0 <= i < s.len() ==> {
            &&& (#[trigger] t[i]).layer_type == s[i].layer_type
            &&& t[i].layer_range == s[i].layer_range
            &&& t[i].look == s[i].look
            &&& t[i].range_constraints_spec() == constraint_list(range_pushes(s, i))
            &&& t[i].position_constraint_spec() == position_for(s, i, None)
        }
}

/// `t` is `s` with the type of layer `index` set to `new_type`.
pub open spec fn with_type<T, L>(s: Seq<Layer<T, L>>, t: Seq<Layer<T, L>>, index: int, new_type: LayerType<T>) -> bool {
    &&& t.len() == s.len()
    &&& forall|j: int| 0 <= j < s.len() && j != index ==> #[trigger] t[j] == s[j]
    &&& t[index].layer_type == new_type
    &&& t[index].name == s[index].name
    &&& t[index].layer_range == s[index].layer_range
    &&& t[index].look == s[index].look
    &&& t[index].range_constraints_spec() == s[index].range_constraints_spec()
    &&& t[index].position_constraint_spec() == s[index].position_constraint_spec()
}

impl<T, L> Layers<T, L> {
    /// Creates a stack from the given layers, placing their constraints and
    /// naming them "Layer 1", "Layer 2", ... in order.
    ///
    /// The configuration must be usable (see `valid_layers`).
    pub fn new(layers: Vec<Layer<T, L>>) -> (r: Layers<T, L>)
        requires
            layers_check(layers@) is Ok,
            layers@.len() < usize::MAX,
        ensures
            placed_keeping_looks(layers@, r.layers@),
            forall|i: int| 0 <= i < layers@.len() ==> (#[trigger] r.layers@[i]).name@ == layer_name((i + 1) as nat),
            r.implementors_current(),
            !r.arb_precision,
    {
        let ghost s0 = layers@;
        let mut layers = layers;
        Layers::place_constraints(&mut layers);
        let ghost s1 = layers@;
        let n = layers.len();
        let mut i: usize = 0;
        while i < n
            invariant
                n == s0.len(),
                n < usize::MAX,
                layers@.len() == n,
                i <= n,
                forall|j: int|
                    0 <= j < n ==> {
                        &&& (#[trigger] layers@[j]).layer_type == s1[j].layer_type
                        &&& layers@[j].layer_range == s1[j].layer_range
                        &&& layers@[j].look == s1[j].look
                        &&& layers@[j].range_constraints_spec() == s1[j].range_constraints_spec()
                        &&& layers@[j].position_constraint_spec() == s1[j].position_constraint_spec()
                    },
                forall|j: int| 0 <= j < i ==> (#[trigger] layers@[j]).name@ == layer_name((j + 1) as nat),
            decreases n - i,
        {
            layers[i].name = numbered_layer_name(i + 1);
            i = i + 1;
        }
        let (implementors, implementor_map) = make_implementors(&layers);
        Layers { layers, implementors, implementor_map, arb_precision: false }
    }

    /// Adds `layer` on top of the stack, named "Layer {n}" after its position,
    /// and places the constraints again.
    pub fn add_layer(&mut self, layer: Layer<T, L>)
        requires
            shading_covered(old(self).layers@.push(layer)),
            old(self).layers@.len() + 1 < usize::MAX,
        ensures
            placed_keeping_looks(old(self).layers@.push(layer), final(self).layers@),
            forall|i: int|
                0 <= i < old(self).layers@.len() ==> (#[trigger] final(self).layers@[i]).name
                    == old(self).layers@[i].name,
            final(self).layers@[old(self).layers@.len() as int].name@ == layer_name(
                (old(self).layers@.len() + 1) as nat,
            ),
            final(self).implementors_current(),
            final(self).arb_precision == old(self).arb_precision,
    {
        let ghost s0 = self.layers@.push(layer);
        let mut layer = layer;
        layer.name = numbered_layer_name(self.layers.len() + 1);
        self.layers.push(layer);
        proof {
            assert forall|i: int| 0 <= i < s0.len() implies same_shape(s0[i], #[trigger] self.layers@[i]) by {}
            lemma_same_shape_specs(s0, self.layers@);
        }
        Layers::place_constraints(&mut self.layers);
        self.update_implementors();
    }

    /// Takes the layer at `take_i` out of the stack and inserts it at `dest_i`.
    pub fn reorder_layer(&mut self, take_i: usize, dest_i: usize)
        requires
            take_i < old(self).layers@.len(),
            dest_i < old(self).layers@.len(),
        ensures
            final(self).layers@ == old(self).layers@.remove(take_i as int).insert(
                dest_i as int,
                old(self).layers@[take_i as int],
            ),
            final(self).implementors_current(),
            final(self).arb_precision == old(self).arb_precision,
    {
        let to_insert = self.layers.remove(take_i);
        self.layers.insert(dest_i, to_insert);
        self.update_implementors();
    }

    /// Removes the layer at `index`.
    pub fn delete_layer(&mut self, index: usize)
        requires
            index < old(self).layers@.len(),
        ensures
            final(self).layers@ == old(self).layers@.remove(index as int),
            final(self).implementors_current(),
            final(self).arb_precision == old(self).arb_precision,
    {
        self.layers.remove(index);
        self.update_implementors();
    }

    /// Changes the type of the layer at `index` to `new_type`, when the layer
    /// allows it and the stack stays usable; otherwise the type is kept.
    pub fn change_layer_type(&mut self, index: usize, new_type: LayerType<T>)
        requires
            index < old(self).layers@.len(),
        ensures
            !old(self).layers@[index as int].can_change_type_spec(new_type) ==> *final(self) == *old(self),
            old(self).layers@[index as int].can_change_type_spec(new_type) ==> {
                &&& final(self).implementors_current()
                &&& final(self).arb_precision == old(self).arb_precision
                &&& exists|t: Seq<Layer<T, L>>|
                    with_type(old(self).layers@, t, index as int, new_type) && if layers_check(t) is Ok {
                        final(self).layers@ == t
                    } else {
                        final(self).layers@ == old(self).layers@
                    }
            },
            layers_check(old(self).layers@) is Ok ==> layers_check(final(self).layers@) is Ok,
    {
        if !self.layers[index].can_change_type(&new_type) {
            return;
        }
        let ghost s0 = self.layers@;
        let mut other = new_type;
        std::mem::swap(&mut self.layers[index].layer_type, &mut other);
        let ghost s1 = self.layers@;
        assert(with_type(s0, s1, index as int, new_type));
        if Layers::valid_layers(&self.layers).is_err() {
            std::mem::swap(&mut self.layers[index].layer_type, &mut other);
            assert(self.layers@ =~= s0);
        }
        self.update_implementors();
    }
}

impl<T, L> Layer<T, L> {
    /// Whether the layer may be changed to `new_type` (see `can_change_type`).
    pub open spec fn can_change_type_spec(&self, new_type: LayerType<T>) -> bool {
        is_shading(self.layer_type) || !is_shading(new_type) || self.range_constraints_spec() is None
    }
}


// ---------------------------------------------------------------------------
// Laws of the layer stack
// ---------------------------------------------------------------------------

/// Every layer of a stack whose calculations are current reads a calculation
/// of the kind it needs (the smooth iteration count for colour and shading
/// layers, the 3D normal for 3D shading, its own trap for an orbit-trap
/// layer), and no calculation is made twice.
pub proof fn lemma_layers_read_needed_implementors<T, L>(stack: Layers<T, L>)
    requires
        stack.implementors_current(),
    ensures
        implementors_serve(stack.layers@, stack.implementors@, stack.implementor_map@),
{
    let s = stack.layers@;
    assert(s.len() == stack.layers.len());
    lemma_implementors_serve_layers(s, s.len() as int);
    assert(s.take(s.len() as int) == s);
}

/// Placing constraints again on a stack whose constraints were just placed
/// gives the same constraints: they depend only on the layers' types and
/// ranges.
pub proof fn lemma_place_constraints_idempotent<T, L>(
    s: Seq<Layer<T, L>>,
    t: Seq<Layer<T, L>>,
    u: Seq<Layer<T, L>>,
)
    requires
        constraints_placed(s, t),
        constraints_placed(t, u),
    ensures
        u.len() == t.len(),
        forall|i: int|
            0 <= i < t.len() ==> (#[trigger] u[i]).range_constraints_spec()
                == t[i].range_constraints_spec() && u[i].position_constraint_spec()
                == t[i].position_constraint_spec(),
{
    assert forall|i: int| 0 <= i < s.len() implies same_shape(s[i], #[trigger] t[i]) by {
        assert(same_layer(s[i], t[i]));
    }
    lemma_same_shape_specs(s, t);
    assert forall|i: int| 0 <= i < t.len() implies (#[trigger] u[i]).range_constraints_spec()
        == t[i].range_constraints_spec() && u[i].position_constraint_spec()
        == t[i].position_constraint_spec() by {
        assert(range_pushes(t, i) == range_pushes(s, i));
        assert(position_for(t, i, None) == position_for(s, i, None));
    }
}

/// Moving a layer back undoes moving it: taking the layer at `take_i` to
/// `dest_i`, then the layer at `dest_i` back to `take_i`, restores the stack.
pub proof fn lemma_reorder_undone<A>(s: Seq<A>, take_i: int, dest_i: int)
    requires
        0 <= take_i < s.len(),
        0 <= dest_i < s.len(),
    ensures
        ({
            let moved = s.remove(take_i).insert(dest_i, s[take_i]);
            moved.remove(dest_i).insert(take_i, moved[dest_i]) == s
        }),
{
    let moved = s.remove(take_i).insert(dest_i, s[take_i]);
    assert(moved[dest_i] == s[take_i]);
    assert(moved.remove(dest_i) =~= s.remove(take_i));
    assert(s.remove(take_i).insert(take_i, s[take_i]) =~= s);
}


proof fn lemma_colour_before_gives_first<T, L>(s: Seq<Layer<T, L>>, b: bool, k: int, m: int)
    requires
        0 <= k < m,
        colour_at(s, k, b),
    ensures
        first_colour(s, b, m) matches Some(j) && j <= k,
{
    lemma_first_colour_between(s, b, 0, m);
}

proof fn lemma_count_one_if_alone<T, L>(s: Seq<Layer<T, L>>, b: bool, k: int, m: int)
    requires
        first_colour(s, b, m) == Some(k),
        forall|l: int| k < l < m ==> !#[trigger] colour_at(s, l, b),
    ensures
        count_colour(s, b, m) == 1,
    decreases m,
{
    lemma_first_colour_between(s, b, 0, m);
    if m - 1 == k {
        lemma_count_colour_bounds(s, b, k);
        lemma_first_colour_between(s, b, 0, k);
    } else {
        lemma_colour_before_gives_first(s, b, k, m - 1);
        lemma_count_one_if_alone(s, b, k, m - 1);
    }
}

/// Deleting a layer that may be deleted keeps a usable stack usable, as long
/// as its constraints are those placed for it: a shading layer never colours
/// anything another layer relies on, and a colouring layer some shading layer
/// relies on is held by a range constraint.
pub proof fn lemma_delete_keeps_stack_usable<T, L>(s: Seq<Layer<T, L>>, i: int)
    requires
        layers_check(s) is Ok,
        0 <= i < s.len(),
        s[i].range_constraints_spec() == constraint_list(range_pushes(s, i)),
        s[i].range_constraints_spec() is None || is_shading(s[i].layer_type),
    ensures
        layers_check(s.remove(i)) is Ok,
{
    let n = s.len() as int;
    let t = s.remove(i);
    let shading_i = is_shading(s[i].layer_type);
    assert(forall|j: int| 0 <= j < i ==> #[trigger] t[j] == s[j]);
    assert(forall|j: int| i <= j < n - 1 ==> #[trigger] t[j] == s[j + 1]);
    if !shading_i {
        assert(range_pushes(s, i).len() == 0);
        assert(n != 1);
        assert(lone_colour_before_shade(s, true) != Some(i));
        assert(lone_colour_before_shade(s, false) != Some(i));
    }
    // some layer is left, and it is not a shading one
    if i == 0 {
        assert(!shading_i) by {
            assert(!is_shading(s[0].layer_type));
        }
        assert(n >= 2);
        if is_shading(s[1].layer_type) {
            assert(shade_covered(s, 1)) by {
                assert(is_shading(s[1].layer_type));
            }
            let b = s[1].layer_range.applies(true);
            assert(s[1].layer_range.applies(b));
            lemma_first_colour_between(s, b, 0, 1);
            assert(colour_at(s, 0, b));
            lemma_first_shade(s, b, n);
            assert(first_shade(s, b, n) == Some(1int)) by {
                assert(!shade_at(s, 0, b));
                assert(shade_at(s, 1, b));
                if first_shade(s, b, n) != Some(1int) {
                    let f = first_shade(s, b, n).unwrap();
                    assert(f < 1 || f > 1);
                }
            }
            assert(count_colour(s, b, 1) == 1) by {
                assert(count_colour(s, b, 0) == 0);
            }
            assert(lone_colour_before_shade(s, b) == Some(0int));
        }
        assert(t[0] == s[1]);
    } else {
        assert(t[0] == s[0]);
    }
    // every shading layer left still has a colouring layer before it
    assert forall|j: int| 0 <= j < t.len() && is_shading(#[trigger] t[j].layer_type) implies shade_covered(t, j) by {
        let jj = if j < i { j } else { j + 1 };
        assert(t[j] == s[jj]);
        assert(jj != i);
        assert(shade_covered(s, jj)) by {
            assert(is_shading(s[jj].layer_type));
        }
        assert forall|b: bool| #[trigger] t[j].layer_range.applies(b) implies first_colour(t, b, j) is Some by {
            lemma_first_colour_between(s, b, 0, jj);
            let k = first_colour(s, b, jj).unwrap();
            if k != i {
                let kk = if k < i { k } else { k - 1 };
                assert(t[kk] == s[k]);
                assert(colour_at(t, kk, b));
                lemma_colour_before_gives_first(t, b, kk, j);
            } else {
                // the colouring layer being deleted was the first one for this
                // part; it is not alone before the first shading layer of the
                // part, so another colouring layer follows it
                assert(!shading_i);
                lemma_first_shade(s, b, n);
                assert(shade_at(s, jj, b));
                let f = first_shade(s, b, n).unwrap();
                assert(f <= jj);
                assert(shade_covered(s, f)) by {
                    assert(is_shading(s[f].layer_type));
                }
                lemma_first_colour_between(s, b, 0, f);
                assert(first_colour(s, b, f) == Some(i)) by {
                    let k2 = first_colour(s, b, f).unwrap();
                    lemma_colour_before_gives_first(s, b, k2, jj);
                }
                if forall|l: int| i < l < f ==> !#[trigger] colour_at(s, l, b) {
                    lemma_count_one_if_alone(s, b, i, f);
                    assert(lone_colour_before_shade(s, b) == Some(i));
                }
                let c2 = choose|l: int| i < l < f && #[trigger] colour_at(s, l, b);
                assert(t[c2 - 1] == s[c2]);
                assert(colour_at(t, c2 - 1, b));
                lemma_colour_before_gives_first(t, b, c2 - 1, j);
            }
        }
        assert(t[j].layer_range.applies(true) ==> first_colour(t, true, j) is Some);
        assert(t[j].layer_range.applies(false) ==> first_colour(t, false, j) is Some);
    }
}

/// `t` is `s` with the range of layer `index` set to `range`.
pub open spec fn with_range<T, L>(s: Seq<Layer<T, L>>, t: Seq<Layer<T, L>>, index: int, range: LayerRange) -> bool {
    &&& t.len() == s.len()
    &&& forall|j: int| 0 <= j < s.len() && j != index ==> #[trigger] t[j] == s[j]
    &&& t[index].layer_type == s[index].layer_type
    &&& t[index].layer_range == range
}

/// Switching a colouring layer to a range its constraints allow keeps a
/// usable stack usable, as long as its constraints are those placed for it: a
/// colouring layer that the first shading layer of a part of the set relies
/// on alone is held to ranges that keep colouring that part.
pub proof fn lemma_range_change_keeps_stack_usable<T, L>(
    s: Seq<Layer<T, L>>,
    t: Seq<Layer<T, L>>,
    i: int,
    r: LayerRange,
)
    requires
        layers_check(s) is Ok,
        0 <= i < s.len(),
        !is_shading(s[i].layer_type),
        s[i].range_constraints_spec() == constraint_list(range_pushes(s, i)),
        s[i].range_allowed_spec(r),
        with_range(s, t, i, r),
    ensures
        layers_check(t) is Ok,
{
    let n = s.len() as int;
    assert(!is_shading(t[0].layer_type)) by {
        if i != 0 {
            assert(t[0] == s[0]);
        }
    }
    assert forall|j: int| 0 <= j < t.len() && is_shading(#[trigger] t[j].layer_type) implies shade_covered(t, j) by {
        assert(j != i);
        assert(t[j] == s[j]);
        assert(shade_covered(s, j)) by {
            assert(is_shading(s[j].layer_type));
        }
        assert forall|b: bool| #[trigger] t[j].layer_range.applies(b) implies first_colour(t, b, j) is Some by {
            lemma_first_colour_between(s, b, 0, j);
            let k = first_colour(s, b, j).unwrap();
            if k != i {
                assert(t[k] == s[k]);
                assert(colour_at(t, k, b));
                lemma_colour_before_gives_first(t, b, k, j);
            } else if r.applies(b) {
                assert(colour_at(t, i, b));
                lemma_colour_before_gives_first(t, b, i, j);
            } else {
                // the switched layer was the first colouring layer of this
                // part; if no other colouring layer follows it before the
                // first shading layer of the part, it is held to that part
                lemma_first_shade(s, b, n);
                assert(shade_at(s, j, b));
                let f = first_shade(s, b, n).unwrap();
                assert(f <= j);
                assert(shade_covered(s, f)) by {
                    assert(is_shading(s[f].layer_type));
                }
                lemma_first_colour_between(s, b, 0, f);
                assert(first_colour(s, b, f) == Some(i)) by {
                    let k2 = first_colour(s, b, f).unwrap();
                    lemma_colour_before_gives_first(s, b, k2, j);
                }
                if forall|l: int| i < l < f ==> !#[trigger] colour_at(s, l, b) {
                    lemma_count_one_if_alone(s, b, i, f);
                    assert(lone_colour_before_shade(s, b) == Some(i));
                    assert(n != 1);
                    let v = range_pushes(s, i);
                    let first = range_pushes_first(s, i);
                    if b {
                        assert(v[first.len() as int] == LayerRange::InSet);
                        assert(v[first.len() as int].applies(true));
                        assert(some_applies(v, true));
                    } else {
                        let c = if lone_colour_before_shade(s, true) == Some(i) {
                            seq![LayerRange::InSet]
                        } else {
                            Seq::empty()
                        };
                        assert(v[(first.len() + c.len()) as int] == LayerRange::OutSet);
                        assert(v[(first.len() + c.len()) as int].applies(false));
                        assert(some_applies(v, false));
                    }
                    assert(false);
                }
                let c2 = choose|l: int| i < l < f && #[trigger] colour_at(s, l, b);
                assert(t[c2] == s[c2]);
                assert(colour_at(t, c2, b));
                lemma_colour_before_gives_first(t, b, c2, j);
            }
        }
        assert(t[j].layer_range.applies(true) ==> first_colour(t, true, j) is Some);
        assert(t[j].layer_range.applies(false) ==> first_colour(t, false, j) is Some);
    }
}

/// Two stacks with the same colouring layers between `lo` and `hi` have the
/// same first colouring layer there.
proof fn lemma_same_colours_first_colour<T, L>(
    s: Seq<Layer<T, L>>,
    t: Seq<Layer<T, L>>,
    b: bool,
    lo: int,
    hi: int,
)
    requires
        forall|j: int| lo <= j < hi ==> #[trigger] colour_at(t, j, b) == colour_at(s, j, b),
    ensures
        first_colour_between(t, b, lo, hi) == first_colour_between(s, b, lo, hi),
    decreases hi - lo,
{
    if hi > lo {
        lemma_same_colours_first_colour(s, t, b, lo, hi - 1);
        assert(colour_at(t, hi - 1, b) == colour_at(s, hi - 1, b));
    }
}

/// Switching a shading layer to a range its constraints allow keeps a usable
/// stack usable, as long as its constraints are those placed for it, and
/// either a range constraint holds it or the new range has a colouring layer
/// before it for every part of the set it applies to. A shading layer is held
/// to its own part of the set when nothing colours the other part; a shading
/// layer that no constraint holds may be switched to a part whose colouring
/// layers all come after it, which leaves that part unshaded by anything.
pub proof fn lemma_shading_range_change_keeps_stack_usable<T, L>(
    s: Seq<Layer<T, L>>,
    t: Seq<Layer<T, L>>,
    i: int,
    r: LayerRange,
)
    requires
        layers_check(s) is Ok,
        0 <= i < s.len(),
        is_shading(s[i].layer_type),
        s[i].range_constraints_spec() == constraint_list(range_pushes(s, i)),
        s[i].range_allowed_spec(r),
        s[i].range_constraints_spec() is Some || (
            (r.applies(true) ==> first_colour(s, true, i) is Some)
            && (r.applies(false) ==> first_colour(s, false, i) is Some)),
        with_range(s, t, i, r),
    ensures
        layers_check(t) is Ok,
{
    let n = s.len() as int;
    assert(i != 0);
    assert(t[0] == s[0]);
    assert forall|j: int, b: bool| 0 <= j < n implies #[trigger] colour_at(t, j, b) == colour_at(s, j, b) by {
        if j != i {
            assert(t[j] == s[j]);
        }
    }
    assert forall|k: int, b: bool| 0 <= k <= n implies #[trigger] first_colour(t, b, k) == first_colour(s, b, k) by {
        assert forall|j: int| 0 <= j < k implies #[trigger] colour_at(t, j, b) == colour_at(s, j, b) by {
            assert(colour_at(t, j, b) == colour_at(s, j, b));
        }
        lemma_same_colours_first_colour(s, t, b, 0, k);
    }
    assert(shade_covered(s, i)) by {
        assert(is_shading(s[i].layer_type));
    }
    if s[i].range_constraints_spec() is Some {
        // the constraint holds the layer to its own part of the set
        assert(n != 1);
        let first = range_pushes_first(s, i);
        assert(lone_colour_before_shade(s, true) != Some(i)) by {
            if lone_colour_before_shade(s, true) == Some(i) {
                let f = first_shade(s, true, n).unwrap();
                lemma_first_colour_between(s, true, 0, f);
            }
        }
        assert(lone_colour_before_shade(s, false) != Some(i)) by {
            if lone_colour_before_shade(s, false) == Some(i) {
                let f = first_shade(s, false, n).unwrap();
                lemma_first_colour_between(s, false, 0, f);
            }
        }
        assert(range_pushes(s, i) == first);
        lemma_count_colour_bounds(s, true, n);
        lemma_count_colour_bounds(s, false, n);
        lemma_count_colour_bounds(s, true, i);
        lemma_count_colour_bounds(s, false, i);
        lemma_first_colour_between(s, true, 0, i);
        lemma_first_colour_between(s, false, 0, i);
        lemma_first_colour_between(s, true, 0, n);
        lemma_first_colour_between(s, false, 0, n);
        if s[i].layer_range.applies(true) {
            let k = first_colour(s, true, i).unwrap();
            lemma_colour_before_gives_first(s, true, k, n);
        }
        if s[i].layer_range.applies(false) {
            let k = first_colour(s, false, i).unwrap();
            lemma_colour_before_gives_first(s, false, k, n);
        }
        let v = range_pushes(s, i);
        if count_colour(s, true, n) == 0 && shade_at(s, i, false) {
            assert(v == seq![LayerRange::OutSet]);
            assert(some_applies(v, false)) by {
                assert(v[0].applies(false));
            }
            assert(!some_applies(v, true));
            assert(r == LayerRange::OutSet);
            assert(s[i].layer_range == LayerRange::OutSet);
        } else {
            assert(count_colour(s, false, n) == 0 && shade_at(s, i, true));
            assert(v == seq![LayerRange::InSet]);
            assert(some_applies(v, true)) by {
                assert(v[0].applies(true));
            }
            assert(!some_applies(v, false));
            assert(r == LayerRange::InSet);
            assert(s[i].layer_range == LayerRange::InSet);
        }
    }
    assert forall|j: int| 0 <= j < t.len() && is_shading(#[trigger] t[j].layer_type) implies shade_covered(t, j) by {
        if j != i {
            assert(t[j] == s[j]);
            assert(shade_covered(s, j)) by {
                assert(is_shading(s[j].layer_type));
            }
        }
    }
}

/// After constraints are placed on a usable stack, a shading layer may never
/// be moved to or above the first colouring layer before it of the part of
/// the set it shades: outside the set when it shades outside (that
/// constraint is placed last, so it holds for a layer shading both parts),
/// inside the set when it shades only inside.
pub proof fn lemma_placed_shading_stays_below_colour<T, L>(s: Seq<Layer<T, L>>, t: Seq<Layer<T, L>>)
    requires
        layers_check(s) is Ok,
        s.len() < usize::MAX,
        constraints_placed(s, t),
    ensures
        forall|i: int|
            0 <= i < t.len() && is_shading((#[trigger] t[i]).layer_type) ==> match t[
                i
            ].position_constraint_spec() {
                None => false,
                Some(p) => {
                    &&& t[i].layer_range.applies(false) ==> (first_colour(s, false, i) matches Some(c) && c < p.start)
                    &&& !t[i].layer_range.applies(false) ==> (first_colour(s, true, i) matches Some(c) && c < p.start)
                },
            },
{
    let n = s.len() as int;
    assert forall|i: int| 0 <= i < t.len() && is_shading((#[trigger] t[i]).layer_type) implies match t[
        i
    ].position_constraint_spec() {
        None => false,
        Some(p) => {
            &&& t[i].layer_range.applies(false) ==> (first_colour(s, false, i) matches Some(c) && c < p.start)
            &&& !t[i].layer_range.applies(false) ==> (first_colour(s, true, i) matches Some(c) && c < p.start)
        },
    } by {
        assert(same_layer(s[i], t[i]));
        assert(t[i].position_constraint_spec() == position_for(s, i, None));
        assert(shade_covered(s, i)) by {
            assert(is_shading(s[i].layer_type));
        }
        lemma_first_colour_between(s, true, 0, i);
        lemma_first_colour_between(s, false, 0, i);
        lemma_first_colour_between(s, true, 0, n);
        lemma_first_colour_between(s, false, 0, n);
        assert(!colour_at(s, i, true) && !colour_at(s, i, false));
        assert(s[i].layer_range.applies(true) || s[i].layer_range.applies(false));
    }
}

/// After constraints are placed on a usable stack, every layer may stay where
/// it is, and no shading layer may be moved to the top: a shading layer is
/// kept below the first colouring layer of its part of the set, and that
/// colouring layer above the first shading layer of the part.
pub proof fn lemma_placed_positions_allowed<T, L>(s: Seq<Layer<T, L>>, t: Seq<Layer<T, L>>)
    requires
        layers_check(s) is Ok,
        s.len() < usize::MAX,
        constraints_placed(s, t),
    ensures
        forall|i: int|
            0 <= i < t.len() ==> match (#[trigger] t[i]).position_constraint_spec() {
                None => true,
                Some(p) => p.start <= i < p.end,
            },
        forall|i: int|
            0 <= i < t.len() && is_shading((#[trigger] t[i]).layer_type) ==> match t[
                i
            ].position_constraint_spec() {
                None => false,
                Some(p) => !(p.start <= 0 < p.end),
            },
{
    let n = s.len() as int;
    assert forall|i: int| 0 <= i < t.len() implies {
        &&& match (#[trigger] t[i]).position_constraint_spec() {
            None => true,
            Some(p) => p.start <= i < p.end,
        }
        &&& is_shading(t[i].layer_type) ==> match t[i].position_constraint_spec() {
            None => false,
            Some(p) => !(p.start <= 0 < p.end),
        }
    } by {
        assert(same_layer(s[i], t[i]));
        assert(t[i].position_constraint_spec() == position_for(s, i, None));
        lemma_first_colour_between(s, true, 0, i);
        lemma_first_colour_between(s, false, 0, i);
        lemma_first_colour_between(s, true, 0, n);
        lemma_first_colour_between(s, false, 0, n);
        lemma_first_shade(s, true, n);
        lemma_first_shade(s, false, n);
        if first_shade(s, false, n) is Some && first_colour(s, false, n) == Some(i) {
            let f = first_shade(s, false, n).unwrap();
            assert(shade_covered(s, f)) by {
                assert(is_shading(s[f].layer_type));
            }
            let k = first_colour(s, false, f).unwrap();
            lemma_first_colour_between(s, false, 0, f);
            lemma_colour_before_gives_first(s, false, k, n);
        } else if first_shade(s, true, n) is Some && first_colour(s, true, n) == Some(i) {
            let f = first_shade(s, true, n).unwrap();
            assert(shade_covered(s, f)) by {
                assert(is_shading(s[f].layer_type));
            }
            let k = first_colour(s, true, f).unwrap();
            lemma_first_colour_between(s, true, 0, f);
            lemma_colour_before_gives_first(s, true, k, n);
        } else if shade_at(s, i, false) || shade_at(s, i, true) {
            assert(shade_covered(s, i)) by {
                assert(is_shading(s[i].layer_type));
            }
        }
        if is_shading(s[i].layer_type) {
            assert(s[i].layer_range.applies(true) || s[i].layer_range.applies(false));
            assert(shade_covered(s, i));
        }
    }
}

/// Placing constraints keeps a usable stack usable, and the constraints it
/// places are those of the stack it gives: building a stack or adding a layer
/// leaves every layer with the constraints that deleting layers and switching
/// ranges rely on.
pub proof fn lemma_placed_stack_usable<T, L>(s: Seq<Layer<T, L>>, t: Seq<Layer<T, L>>)
    requires
        layers_check(s) is Ok,
        placed_keeping_looks(s, t),
    ensures
        layers_check(t) is Ok,
        forall|i: int|
            0 <= i < t.len() ==> (#[trigger] t[i]).range_constraints_spec() == constraint_list(
                range_pushes(t, i),
            ),
        forall|i: int| 0 <= i < t.len() ==> (#[trigger] t[i]).position_constraint_spec() == position_for(t, i, None),
{
    assert forall|i: int| 0 <= i < s.len() implies same_shape(s[i], #[trigger] t[i]) by {}
    lemma_same_shape_specs(s, t);
    assert(t[0].layer_type == s[0].layer_type);
}

/// A layer added on top of a usable stack, with a colouring layer before it
/// for each part it shades, leaves the stack usable.
pub proof fn lemma_add_keeps_stack_usable<T, L>(s: Seq<Layer<T, L>>, layer: Layer<T, L>, t: Seq<Layer<T, L>>)
    requires
        layers_check(s) is Ok,
        shading_covered(s.push(layer)),
        placed_keeping_looks(s.push(layer), t),
    ensures
        layers_check(t) is Ok,
{
    assert(s.push(layer)[0] == s[0]);
    lemma_placed_stack_usable(s.push(layer), t);
}

} // verus!
