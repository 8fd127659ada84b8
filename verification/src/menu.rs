//! The decisions of the side menu: which page is shown, what a page's signal
//! leads to, stepping through a carousel, and moving a layer card by dragging.

use vstd::prelude::*;

verus! {

broadcast use vstd::string::group_string_axioms;

/// What a menu page asks for after it has been updated.
#[derive(Clone, Copy, PartialEq, Eq, Structural, Debug)]
pub enum MenuSignal {
    Idle,
    OpenEditor(usize),
    OpenPalette(usize),
    RecordVideo,
    RefreshGradients,
    Import,
}

/// The page the menu shows.
#[derive(Clone, Copy, PartialEq, Eq, Structural, Debug)]
pub enum MenuState {
    Closed,
    General,
    Layers,
    LayerEditor,
    Screenshot,
    Video,
    PaletteEditor,
    VideoRecorder,
    /// integer specifies the index of the next menu
    UpdateGradient(usize),
}

/// The page work a signal needs done before the menu moves to its next page.
#[derive(Clone, Copy, PartialEq, Eq, Structural, Debug)]
pub enum MenuAction {
    /// nothing to do
    Nothing,
    /// create page `menu` if it does not exist yet, then open layer `layer` in it
    OpenLayerIn { menu: usize, layer: usize },
    /// refresh the gradients of every page
    RefreshGradients,
    /// create page `menu` anew, then refresh the gradients of every page
    RecreateAndRefresh(usize),
}

/// The index of a page in the menu's page list (7 for the closed menu, 8 while
/// the gradients are refreshed).
pub open spec fn state_index(s: MenuState) -> nat {
    match s {
        MenuState::General => 0,
        MenuState::Layers => 1,
        MenuState::LayerEditor => 2,
        MenuState::Screenshot => 3,
        MenuState::Video => 4,
        MenuState::PaletteEditor => 5,
        MenuState::VideoRecorder => 6,
        MenuState::Closed => 7,
        MenuState::UpdateGradient(_) => 8,
    }
}

/// The page of a navigation-bar button (the general page for any other index).
pub open spec fn button_state(i: int) -> MenuState {
    if i == 1 {
        MenuState::Layers
    } else if i == 2 {
        MenuState::LayerEditor
    } else if i == 3 {
        MenuState::Screenshot
    } else if i == 4 {
        MenuState::Video
    } else {
        MenuState::General
    }
}

/// The state while the gradients are refreshed: it remembers the page to go
/// back to (the general page after the palette editor).
pub open spec fn refreshing_state(s: MenuState) -> MenuState {
    match s {
        MenuState::PaletteEditor => MenuState::UpdateGradient(0),
        _ => MenuState::UpdateGradient(state_index(s) as usize),
    }
}

/// The next page and the work to do for a signal received on page `s`.
pub open spec fn signal_outcome(s: MenuState, signal: MenuSignal) -> (MenuState, MenuAction) {
    match signal {
        MenuSignal::Idle => (s, MenuAction::Nothing),
        MenuSignal::OpenEditor(i) => (
            MenuState::LayerEditor,
            MenuAction::OpenLayerIn { menu: 2, layer: i },
        ),
        MenuSignal::OpenPalette(i) => (
            MenuState::PaletteEditor,
            MenuAction::OpenLayerIn { menu: 5, layer: i },
        ),
        MenuSignal::RecordVideo => (
            MenuState::VideoRecorder,
            MenuAction::OpenLayerIn { menu: 6, layer: 0 },
        ),
        MenuSignal::RefreshGradients => (refreshing_state(s), MenuAction::RefreshGradients),
        MenuSignal::Import => (refreshing_state(s), MenuAction::RecreateAndRefresh(1)),
    }
}

impl MenuState {
    /// Returns the page of the navigation-bar button `button_i`.
    pub fn map_button_states(button_i: isize) -> (s: MenuState)
        ensures
            s == button_state(button_i as int),
    {
        match button_i {
            0 => MenuState::General,
            1 => MenuState::Layers,
            2 => MenuState::LayerEditor,
            3 => MenuState::Screenshot,
            4 => MenuState::Video,
            _ => MenuState::General,
        }
    }

    /// Returns whether the page hides the navigation bar.
    pub fn no_navbar(&self) -> (r: bool)
        ensures
            r == (*self == MenuState::PaletteEditor || *self == MenuState::VideoRecorder),
    {
        *self == MenuState::PaletteEditor || *self == MenuState::VideoRecorder
    }

    /// Returns the index of the page in the menu's page list.
    pub fn map_state_indexes(&self) -> (i: usize)
        ensures
            i == state_index(*self),
    {
        match self {
            MenuState::General => 0,
            MenuState::Layers => 1,
            MenuState::LayerEditor => 2,
            MenuState::Screenshot => 3,
            MenuState::Video => 4,
            MenuState::PaletteEditor => 5,
            MenuState::VideoRecorder => 6,
            MenuState::Closed => 7,
            MenuState::UpdateGradient(_) => 8,
        }
    }

    /// Returns the title shown for the page (empty for the closed menu and
    /// while refreshing).
    pub fn get_string(&self) -> (s: String)
        ensures
            s@ == match *self {
                MenuState::General => "GENERAL"@,
                MenuState::Layers => "LAYERS"@,
                MenuState::LayerEditor => "LAYER EDITOR"@,
                MenuState::Screenshot => "SCREENSHOT"@,
                MenuState::Video => "VIDEO"@,
                MenuState::PaletteEditor => "PALETTE EDITOR"@,
                MenuState::VideoRecorder => "VIDEO RECORDER"@,
                _ => ""@,
            },
    {
        match self {
            MenuState::General => String::from_str("GENERAL"),
            MenuState::Layers => String::from_str("LAYERS"),
            MenuState::LayerEditor => String::from_str("LAYER EDITOR"),
            MenuState::Screenshot => String::from_str("SCREENSHOT"),
            MenuState::Video => String::from_str("VIDEO"),
            MenuState::PaletteEditor => String::from_str("PALETTE EDITOR"),
            MenuState::VideoRecorder => String::from_str("VIDEO RECORDER"),
            _ => String::from_str(""),
        }
    }

    /// Moves to the refreshing state, remembering the page to go back to.
    pub fn refresh_gradients(&mut self)
        ensures
            *final(self) == refreshing_state(*old(self)),
    {
        *self = match self {
            MenuState::PaletteEditor => MenuState::UpdateGradient(0),
            _ => MenuState::UpdateGradient(self.map_state_indexes()),
        }
    }

    /// Handles the signal of the page just updated: moves to the next page and
    /// returns the page work that has to be done.
    pub fn process_signal(&mut self, signal: MenuSignal) -> (action: MenuAction)
        ensures
            (*final(self), action) == signal_outcome(*old(self), signal),
    {
        match signal {
            MenuSignal::Idle => MenuAction::Nothing,
            MenuSignal::OpenEditor(index) => {
                *self = MenuState::LayerEditor;
                MenuAction::OpenLayerIn { menu: 2, layer: index }
            },
            MenuSignal::OpenPalette(index) => {
                *self = MenuState::PaletteEditor;
                MenuAction::OpenLayerIn { menu: 5, layer: index }
            },
            MenuSignal::RecordVideo => {
                *self = MenuState::VideoRecorder;
                MenuAction::OpenLayerIn { menu: 6, layer: 0 }
            },
            MenuSignal::RefreshGradients => {
                self.refresh_gradients();
                MenuAction::RefreshGradients
            },
            MenuSignal::Import => {
                self.refresh_gradients();
                MenuAction::RecreateAndRefresh(1)
            },
        }
    }

    /// The page after a menu update: once the gradients are refreshed, the
    /// menu goes to the page it remembered.
    pub fn after_update(&self) -> (s: MenuState)
        ensures
            s == match *self {
                MenuState::UpdateGradient(next_i) => button_state(next_i as int),
                other => other,
            },
    {
        match self {
            MenuState::UpdateGradient(next_i) => {
                if *next_i <= 4 {
                    MenuState::map_button_states(*next_i as isize)
                } else {
                    MenuState::General
                }
            },
            other => *other,
        }
    }
}

/// Refreshing the gradients brings the menu back to the page it was on, for
/// every page of the navigation bar; the palette editor and the video
/// recorder give way to the general page.
pub proof fn lemma_refresh_returns_to_page(s: MenuState)
    ensures
        (s == MenuState::General || s == MenuState::Layers || s == MenuState::LayerEditor || s
            == MenuState::Screenshot || s == MenuState::Video) ==> match refreshing_state(s) {
            MenuState::UpdateGradient(i) => button_state(i as int) == s,
            _ => false,
        },
        (s == MenuState::PaletteEditor || s == MenuState::VideoRecorder) ==> match refreshing_state(s) {
            MenuState::UpdateGradient(i) => button_state(i as int) == MenuState::General,
            _ => false,
        },
{
}

/// Returns the index a carousel moves to: left or right when that arrow is
/// hovered, allowed (not past either end) and clicked; `None` otherwise.
pub fn carousel_step(
    index: usize,
    variants: usize,
    left_hovered: bool,
    right_hovered: bool,
    clicked: bool,
) -> (r: Option<usize>)
    requires
        index < variants,
    ensures
        r == if left_hovered && index > 0 && clicked {
            Some((index - 1) as usize)
        } else if right_hovered && index < variants - 1 && clicked {
            Some((index + 1) as usize)
        } else {
            None
        },
        r matches Some(i) ==> i < variants,
{
    let allowed_left = index > 0;
    let allowed_right = index < variants - 1;
    let left_contains = left_hovered && allowed_left;
    let right_contains = right_hovered && allowed_right;
    if !left_contains && !right_contains {
        return None;
    }
    if clicked {
        if left_contains {
            Some(index - 1)
        } else {
            Some(index + 1)
        }
    } else {
        None
    }
}

/// Returns where a layer card released at `release_i` goes, when the mouse is
/// over slot `drag_i` and the layer may (`allowed`) be moved there: nowhere
/// when released on itself or not allowed; past the cards it leaves behind
/// otherwise.
pub fn release_destination(release_i: usize, drag_i: usize, allowed: bool) -> (r: Option<usize>)
    ensures
        r == if drag_i == release_i || !allowed {
            None::<usize>
        } else if drag_i > release_i {
            Some((drag_i - 1) as usize)
        } else {
            Some(drag_i)
        },
{
    let mut dest_i = drag_i;
    if dest_i == release_i {
        return None;
    }
    if !allowed {
        return None;
    }
    if dest_i > release_i {
        dest_i = dest_i - 1;
    }
    Some(dest_i)
}

/// Exchanges the elements at `a` and `b`.
fn swap_elements<A>(v: &mut Vec<A>, a: usize, b: usize)
    requires
        a < old(v)@.len(),
        b < old(v)@.len(),
    ensures
        final(v)@ == old(v)@.update(a as int, old(v)@[b as int]).update(b as int, old(v)@[a as int]),
{
    if a == b {
        assert(v@.update(a as int, v@[b as int]).update(b as int, v@[a as int]) =~= v@);
        return;
    }
    let (lo, hi) = if a < b {
        (a, b)
    } else {
        (b, a)
    };
    let ghost s0 = v@;
    let x_hi = v.remove(hi);
    let x_lo = v.remove(lo);
    v.insert(lo, x_hi);
    v.insert(hi, x_lo);
    assert(v@ =~= s0.update(a as int, s0[b as int]).update(b as int, s0[a as int]));
}

/// Moves the card at `release_i` to `dest_i` by exchanging it with each card
/// between them in turn, as the layers menu does with its layer cards.
pub fn move_by_swaps<A>(v: &mut Vec<A>, release_i: usize, dest_i: usize)
    requires
        release_i < old(v)@.len(),
        dest_i < old(v)@.len(),
    ensures
        final(v)@ == old(v)@.remove(release_i as int).insert(dest_i as int, old(v)@[release_i as int]),
{
    let ghost s0 = v@;
    let ghost r = release_i as int;
    let ghost d = dest_i as int;
    let mut ptr = dest_i;
    while ptr != release_i
        invariant
            v@.len() == s0.len(),
            r < s0.len(),
            d < s0.len(),
            r == release_i,
            d == dest_i,
            r == d ==> v@ == s0,
            r <= d ==> r <= ptr <= d,
            d < r ==> d <= ptr <= r,
            // cards not between the two positions are untouched
            forall|j: int| 0 <= j < s0.len() && (j < r && j < d || j > r && j > d) ==> #[trigger] v@[j] == s0[j],
            // moving down: the cards from `ptr + 1` on have moved up by one
            // and the released card is at `d`
            r < d && ptr == d ==> forall|j: int| r <= j <= d ==> #[trigger] v@[j] == s0[j],
            r < d && ptr < d ==> v@[r] == s0[ptr + 1],
            r < d && ptr < d ==> forall|j: int| r < j <= ptr ==> #[trigger] v@[j] == s0[j],
            r < d && ptr < d ==> forall|j: int| ptr + 1 <= j < d ==> #[trigger] v@[j] == s0[j + 1],
            r < d && ptr < d ==> v@[d] == s0[r],
            // moving up: the cards up to `ptr - 1` have moved down by one
            d < r && ptr == d ==> forall|j: int| d <= j <= r ==> #[trigger] v@[j] == s0[j],
            d < r && ptr > d ==> v@[r] == s0[ptr - 1],
            d < r && ptr > d ==> forall|j: int| ptr <= j < r ==> #[trigger] v@[j] == s0[j],
            d < r && ptr > d ==> forall|j: int| d < j <= ptr - 1 ==> #[trigger] v@[j] == s0[j - 1],
            d < r && ptr > d ==> v@[d] == s0[r],
        decreases if release_i < dest_i {
            (ptr - release_i) as int
        } else {
            (release_i - ptr) as int
        },
    {
        swap_elements(v, release_i, ptr);
        if release_i < dest_i {
            ptr = ptr - 1;
        } else {
            ptr = ptr + 1;
        }
    }
    let ghost target = s0.remove(r).insert(d, s0[r]);
    assert forall|j: int| 0 <= j < s0.len() implies #[trigger] v@[j] == target[j] by {
        if j == d {
        } else if j < r && j < d || j > r && j > d {
        } else if r < d {
            assert(r <= j < d);
            assert(target[j] == s0[j + 1]);
        } else {
            assert(d < j <= r);
            assert(target[j] == s0[j - 1]);
        }
    }
    assert(v@ =~= target);
}

} // verus!
