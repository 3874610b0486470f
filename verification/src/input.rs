use vstd::prelude::*;

verus! {

/// The keys and buttons of one frame that the simulator reacts to.
pub struct FrameKeys {
    /// Space was pressed: pause or unpause.
    pub space: bool,
    /// F was pressed: toggle following the selected body.
    pub f: bool,
    /// O was pressed: open the settings window.
    pub o: bool,
    /// The right mouse button is held.
    pub rmb_down: bool,
}

/// What one frame's keys and buttons do.
pub struct FrameEffect {
    /// Whether the simulation is paused afterwards.
    pub paused: bool,
    /// Whether the camera follows the selected body afterwards.
    pub focusing: bool,
    /// Whether the mouse movement pans the view.
    pub pan: bool,
    /// Whether the settings window is to be opened, ahead of any action
    /// already pending.
    pub open_settings: bool,
}

/// The decisions of one frame's input: Space flips pausing, F flips
/// focusing, dragging with the right button pans only while not focusing,
/// and O asks for the settings window.
pub fn decide_frame_input(paused: bool, focusing: bool, keys: &FrameKeys) -> (e: FrameEffect)
    ensures
        e.paused == (paused != keys.space),
        e.focusing == (focusing != keys.f),
        e.pan == (!e.focusing && keys.rmb_down),
        e.open_settings == keys.o,
{
    let new_paused = if keys.space {
        !paused
    } else {
        paused
    };
    let new_focusing = if keys.f {
        !focusing
    } else {
        focusing
    };
    FrameEffect {
        paused: new_paused,
        focusing: new_focusing,
        pan: !new_focusing && keys.rmb_down,
        open_settings: keys.o,
    }
}

/// The widget that a click goes to next among `n` widgets, in reverse draw
/// order: the last drawn first; after widget `i`, the one before it, unless
/// widget `i` handled the click or was the first.
pub open spec fn click_step(n: nat, last: Option<usize>, handled: bool) -> Option<usize> {
    match last {
        None => if n == 0 {
            None
        } else {
            Some((n - 1) as usize)
        },
        Some(i) => if handled || i == 0 {
            None
        } else {
            Some((i - 1) as usize)
        },
    }
}

/// Routing of a click among `n_widgets` widgets: with `last` the widget that
/// was offered the click last (`None` before any) and `handled` whether it
/// handled it, the widget to offer the click to next, or `None` when the
/// click is done with.
pub fn next_click_target(n_widgets: usize, last: Option<usize>, handled: bool) -> (r: Option<usize>)
    requires
        last matches Some(i) ==> i < n_widgets,
    ensures
        r == click_step(n_widgets as nat, last, handled),
        last is None ==> r == (if n_widgets == 0 {
            None
        } else {
            Some((n_widgets - 1) as usize)
        }),
        last matches Some(i) ==> r == (if handled || i == 0 {
            None::<usize>
        } else {
            Some((i - 1) as usize)
        }),
{
    match last {
        None => if n_widgets == 0 {
            None
        } else {
            Some(n_widgets - 1)
        },
        Some(i) => if handled || i == 0 {
            None
        } else {
            Some(i - 1)
        },
    }
}

/// The widgets a click reaches when widget `i` is offered it first and
/// `handles[j]` tells whether widget `j` handles it: `i`, then downwards,
/// up to and including the first that handles it, or down to the first.
pub open spec fn click_route_from(handles: Seq<bool>, i: int) -> Seq<int>
    decreases i,
{
    if i < 0 {
        Seq::empty()
    } else if handles[i] || i == 0 {
        seq![i]
    } else {
        seq![i] + click_route_from(handles, i - 1)
    }
}

proof fn lemma_click_route_from(handles: Seq<bool>, i: int)
    requires
        0 <= i < handles.len(),
        handles.len() <= usize::MAX,
    ensures
        ({
            let r = click_route_from(handles, i);
            let n = handles.len();
            &&& 1 <= r.len() <= i + 1
            &&& forall|k: int| 0 <= k < r.len() ==> #[trigger] r[k] == i - k
            &&& forall|k: int| 0 <= k < r.len() - 1 ==> !handles[#[trigger] r[k]]
            &&& handles[r.last()] || r.last() == 0
            &&& forall|k: int|
                0 <= k < r.len() - 1 ==> click_step(n, Some(#[trigger] r[k] as usize), handles[r[k]])
                    == Some(r[k + 1] as usize)
            &&& click_step(n, Some(r.last() as usize), handles[r.last()]) == None::<usize>
        }),
    decreases i,
{
    if !(handles[i] || i == 0) {
        lemma_click_route_from(handles, i - 1);
        let r = click_route_from(handles, i);
        let r1 = click_route_from(handles, i - 1);
        assert(r == seq![i] + r1);
        assert forall|k: int| 0 < k < r.len() implies #[trigger] r[k] == r1[k - 1] by {}
        assert(r.last() == r1.last());
    }
}

/// A click goes to the widgets in reverse draw order and stops at the first
/// that handles it: offered by repeated `click_step`s, starting at the last
/// drawn widget, it reaches exactly the widgets from the last drawn one down
/// to the first that handles it (or down to the first drawn), and none of
/// those before the last one reached handles it.
pub proof fn lemma_click_reverse_order_until_handled(handles: Seq<bool>)
    requires
        0 < handles.len() <= usize::MAX,
    ensures
        ({
            let n = handles.len();
            let r = click_route_from(handles, n - 1);
            &&& r.len() >= 1
            &&& click_step(n, None, false) == Some(r[0] as usize)
            &&& forall|k: int| 0 <= k < r.len() ==> #[trigger] r[k] == n - 1 - k
            &&& forall|k: int| 0 <= k < r.len() - 1 ==> !handles[#[trigger] r[k]]
            &&& handles[r.last()] || r.last() == 0
            &&& forall|k: int|
                0 <= k < r.len() - 1 ==> click_step(n, Some(#[trigger] r[k] as usize), handles[r[k]])
                    == Some(r[k + 1] as usize)
            &&& click_step(n, Some(r.last() as usize), handles[r.last()]) == None::<usize>
        }),
{
    lemma_click_route_from(handles, handles.len() - 1);
}

} // verus!
