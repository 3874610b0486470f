use vstd::prelude::*;

use crate::widget::{add_widget_if_not_exists, WidgetType};

verus! {

/// An action requested by the user, queued until the next frame.
#[derive(Clone, Copy, Debug, PartialEq, Eq, Structural)]
pub enum AppAction {
    OpenSettingsWindow,
    OpenAboutWindow,
    Quit,
}

/// The window that an action opens, if it opens one.
pub open spec fn window_for(action: AppAction) -> Option<WidgetType> {
    match action {
        AppAction::OpenSettingsWindow => Some(WidgetType::SettingsWindow),
        AppAction::OpenAboutWindow => Some(WidgetType::AboutWindow),
        AppAction::Quit => None,
    }
}

/// The windows that `actions`, taken in order, add to open widgets of kinds
/// `open`: each action that opens a window adds it unless one of its kind is
/// open already, and nothing after a `Quit` is taken.
pub open spec fn windows_opened(open: Seq<WidgetType>, actions: Seq<AppAction>) -> Seq<WidgetType>
    decreases actions.len(),
{
    if actions.len() == 0 {
        Seq::empty()
    } else {
        match window_for(actions[0]) {
            None => Seq::empty(),
            Some(kind) => if open.contains(kind) {
                windows_opened(open, actions.drop_first())
            } else {
                seq![kind] + windows_opened(open.push(kind), actions.drop_first())
            },
        }
    }
}

/// Action `k` of `actions` asks for a window of kind `kind`, and no `Quit`
/// comes before it.
pub open spec fn requested_before_quit(actions: Seq<AppAction>, k: int, kind: WidgetType) -> bool {
    &&& 0 <= k < actions.len()
    &&& forall|j: int| 0 <= j < k ==> actions[j] != AppAction::Quit
    &&& ((actions[k] == AppAction::OpenSettingsWindow && kind == WidgetType::SettingsWindow) || (
    actions[k] == AppAction::OpenAboutWindow && kind == WidgetType::AboutWindow))
}

/// A request after the first action, with no `Quit` first, is a request of
/// the remaining actions, one place earlier.
proof fn lemma_request_shift(actions: Seq<AppAction>, k: int, kind: WidgetType)
    requires
        actions.len() > 0,
        actions[0] != AppAction::Quit,
        k >= 1,
    ensures
        requested_before_quit(actions, k, kind) == requested_before_quit(actions.drop_first(), k - 1, kind),
{
    let rest = actions.drop_first();
    if requested_before_quit(rest, k - 1, kind) {
        assert forall|j: int| 0 <= j < k implies actions[j] != AppAction::Quit by {
            if j > 0 {
                assert(actions[j] == rest[j - 1]);
            }
        }
    }
    if requested_before_quit(actions, k, kind) {
        assert forall|j: int| 0 <= j < k - 1 implies rest[j] != AppAction::Quit by {
            assert(actions[j + 1] != AppAction::Quit);
        }
    }
}

/// The window kind that the first action asks for, where it asks for one.
spec fn first_kind(actions: Seq<AppAction>) -> WidgetType {
    if actions[0] == AppAction::OpenSettingsWindow {
        WidgetType::SettingsWindow
    } else {
        WidgetType::AboutWindow
    }
}

proof fn lemma_push_contains(open: Seq<WidgetType>, t: WidgetType, x: WidgetType)
    ensures
        open.push(t).contains(x) <==> (open.contains(x) || x == t),
{
    let open2 = open.push(t);
    if open2.contains(x) {
        let i = choose|i: int| 0 <= i < open2.len() && open2[i] == x;
        if i < open.len() {
            assert(open[i] == x);
        }
    }
    if open.contains(x) {
        let i = choose|i: int| 0 <= i < open.len() && open[i] == x;
        assert(open2[i] == x);
    }
    if x == t {
        assert(open2[open.len() as int] == x);
    }
}

/// No window is opened twice, nor one of a kind that is open.
pub proof fn lemma_opened_windows_fresh(open: Seq<WidgetType>, actions: Seq<AppAction>)
    ensures
        windows_opened(open, actions).no_duplicates(),
        forall|m: int|
            0 <= m < windows_opened(open, actions).len() ==> !open.contains(
                #[trigger] windows_opened(open, actions)[m],
            ),
    decreases actions.len(),
{
    let w = windows_opened(open, actions);
    if actions.len() > 0 && actions[0] != AppAction::Quit {
        let rest = actions.drop_first();
        let t = first_kind(actions);
        assert(window_for(actions[0]) == Some(t));
        if open.contains(t) {
            lemma_opened_windows_fresh(open, rest);
        } else {
            let open2 = open.push(t);
            lemma_opened_windows_fresh(open2, rest);
            let w2 = windows_opened(open2, rest);
            assert(w == seq![t] + w2);
            assert forall|m: int| 0 <= m < w2.len() implies !open.contains(#[trigger] w2[m]) && w2[m] != t by {
                lemma_push_contains(open, t, w2[m]);
            }
            assert forall|m: int| 0 <= m < w.len() implies !open.contains(#[trigger] w[m]) by {
                if m > 0 {
                    assert(w[m] == w2[m - 1]);
                }
            }
            assert forall|a: int, b: int| 0 <= a < w.len() && 0 <= b < w.len() && a != b implies w[a]
                != w[b] by {
                if a > 0 {
                    assert(w[a] == w2[a - 1]);
                }
                if b > 0 {
                    assert(w[b] == w2[b - 1]);
                }
            }
        }
    }
}

/// Every window asked for before the first `Quit` is open already or opened.
pub proof fn lemma_requested_windows_opened(open: Seq<WidgetType>, actions: Seq<AppAction>, k: int, kind: WidgetType)
    requires
        requested_before_quit(actions, k, kind),
    ensures
        open.contains(kind) || windows_opened(open, actions).contains(kind),
    decreases actions.len(),
{
    let rest = actions.drop_first();
    let t = first_kind(actions);
    assert(actions[0] != AppAction::Quit);
    assert(window_for(actions[0]) == Some(t));
    let w = windows_opened(open, actions);
    if k == 0 {
        assert(kind == t);
        if !open.contains(t) {
            assert(w[0] == t);
        }
    } else {
        lemma_request_shift(actions, k, kind);
        if open.contains(t) {
            lemma_requested_windows_opened(open, rest, k - 1, kind);
        } else {
            let open2 = open.push(t);
            lemma_requested_windows_opened(open2, rest, k - 1, kind);
            lemma_push_contains(open, t, kind);
            let w2 = windows_opened(open2, rest);
            assert(w == seq![t] + w2);
            assert(w[0] == t);
            if w2.contains(kind) {
                let i = choose|i: int| 0 <= i < w2.len() && w2[i] == kind;
                assert(w[i + 1] == kind);
            }
        }
    }
}

/// Every opened window was asked for before the first `Quit`: the result is
/// the place of such a request.
pub proof fn lemma_opened_window_requested(open: Seq<WidgetType>, actions: Seq<AppAction>, m: int) -> (k: int)
    requires
        0 <= m < windows_opened(open, actions).len(),
    ensures
        requested_before_quit(actions, k, windows_opened(open, actions)[m]),
    decreases actions.len(),
{
    let rest = actions.drop_first();
    let t = first_kind(actions);
    assert(actions[0] != AppAction::Quit);
    assert(window_for(actions[0]) == Some(t));
    let w = windows_opened(open, actions);
    if open.contains(t) {
        let k1 = lemma_opened_window_requested(open, rest, m);
        lemma_request_shift(actions, k1 + 1, w[m]);
        k1 + 1
    } else {
        let open2 = open.push(t);
        let w2 = windows_opened(open2, rest);
        assert(w == seq![t] + w2);
        if m == 0 {
            assert(requested_before_quit(actions, 0, w[0]));
            0
        } else {
            let k1 = lemma_opened_window_requested(open2, rest, m - 1);
            assert(w[m] == w2[m - 1]);
            lemma_request_shift(actions, k1 + 1, w[m]);
            k1 + 1
        }
    }
}

/// Windows are opened in the order of their first request: where window `a`
/// is opened before window `b`, any request of `b` before the first `Quit`
/// comes after a request of `a`, whose place is the result.
pub proof fn lemma_opened_in_request_order(
    open: Seq<WidgetType>,
    actions: Seq<AppAction>,
    a: int,
    b: int,
    kb: int,
) -> (ka: int)
    requires
        0 <= a < b < windows_opened(open, actions).len(),
        requested_before_quit(actions, kb, windows_opened(open, actions)[b]),
    ensures
        ka < kb,
        requested_before_quit(actions, ka, windows_opened(open, actions)[a]),
    decreases actions.len(),
{
    let rest = actions.drop_first();
    let t = first_kind(actions);
    assert(actions[0] != AppAction::Quit);
    assert(window_for(actions[0]) == Some(t));
    let w = windows_opened(open, actions);
    lemma_opened_windows_fresh(open, actions);
    if open.contains(t) {
        assert(kb != 0);
        lemma_request_shift(actions, kb, w[b]);
        let ka1 = lemma_opened_in_request_order(open, rest, a, b, kb - 1);
        lemma_request_shift(actions, ka1 + 1, w[a]);
        ka1 + 1
    } else {
        let open2 = open.push(t);
        let w2 = windows_opened(open2, rest);
        assert(w == seq![t] + w2);
        assert(w[0] == t);
        assert(w[b] != w[0]);
        assert(kb != 0);
        if a == 0 {
            assert(requested_before_quit(actions, 0, w[0]));
            0
        } else {
            assert(w[a] == w2[a - 1]);
            assert(w[b] == w2[b - 1]);
            lemma_request_shift(actions, kb, w[b]);
            let ka1 = lemma_opened_in_request_order(open2, rest, a - 1, b - 1, kb - 1);
            lemma_request_shift(actions, ka1 + 1, w[a]);
            ka1 + 1
        }
    }
}

/// The windows that dispatching opens are exactly the windows asked for
/// before the first `Quit` that are not open already, each once: every
/// window asked for before the first `Quit` is open or opened; every opened
/// window was asked for before the first `Quit` and was not open; and no
/// window is opened twice. (`lemma_opened_in_request_order` gives their
/// order.)
pub proof fn lemma_dispatch_opens_exactly_the_requested_windows(
    open: Seq<WidgetType>,
    actions: Seq<AppAction>,
)
    ensures
        forall|k: int, kind: WidgetType|
            #[trigger] requested_before_quit(actions, k, kind) ==> open.contains(kind)
                || windows_opened(open, actions).contains(kind),
        forall|m: int|
            #![trigger windows_opened(open, actions)[m]]
            0 <= m < windows_opened(open, actions).len() ==> !open.contains(windows_opened(open, actions)[m])
                && exists|k: int| #[trigger] requested_before_quit(actions, k, windows_opened(open, actions)[m]),
        windows_opened(open, actions).no_duplicates(),
{
    let w = windows_opened(open, actions);
    lemma_opened_windows_fresh(open, actions);
    assert forall|k: int, kind: WidgetType| #[trigger] requested_before_quit(actions, k, kind) implies open.contains(kind)
        || w.contains(kind) by {
        lemma_requested_windows_opened(open, actions, k, kind);
    }
    assert forall|m: int| #![trigger w[m]] 0 <= m < w.len() implies exists|k: int| #[trigger] requested_before_quit(actions, k, w[m]) by {
        let k = lemma_opened_window_requested(open, actions, m);
    }
}

proof fn lemma_opened_facts(open: Seq<WidgetType>, actions: Seq<AppAction>, opened: Seq<WidgetType>)
    requires
        opened == windows_opened(open, actions),
    ensures
        forall|k: int, kind: WidgetType|
            #[trigger] requested_before_quit(actions, k, kind) ==> open.contains(kind)
                || opened.contains(kind),
        forall|m: int|
            #![trigger opened[m]]
            0 <= m < opened.len() ==> !open.contains(opened[m])
                && exists|k: int| #[trigger] requested_before_quit(actions, k, opened[m]),
        opened.no_duplicates(),
{
    lemma_dispatch_opens_exactly_the_requested_windows(open, actions);
    assert forall|m: int| #![trigger opened[m]] 0 <= m < opened.len() implies exists|k: int| #[trigger] requested_before_quit(actions, k, opened[m]) by {
        let k = lemma_opened_window_requested(open, actions, m);
    }
}

/// Whether `actions` hold a `Quit`.
pub open spec fn quits(actions: Seq<AppAction>) -> bool {
    exists|i: int| 0 <= i < actions.len() && #[trigger] actions[i] == AppAction::Quit
}

/// What the pending actions of one frame do.
pub struct Dispatch {
    /// The windows to open, in order.
    pub opened: Vec<WidgetType>,
    /// Whether the program is to exit once they are open.
    pub quit: bool,
}

/// Takes the pending actions in order, with widgets of kinds `open` open:
/// a window is opened unless one of its kind is open already, and a `Quit`
/// ends the program, so that no later action is taken.
pub fn dispatch_pending_actions(open: &Vec<WidgetType>, actions: &Vec<AppAction>) -> (d: Dispatch)
    ensures
        d.opened@ == windows_opened(open@, actions@),
        d.quit == quits(actions@),
        d.quit == exists|i: int| 0 <= i < actions@.len() && #[trigger] actions@[i] == AppAction::Quit,
        forall|k: int, kind: WidgetType|
            #[trigger] requested_before_quit(actions@, k, kind) ==> open@.contains(kind)
                || d.opened@.contains(kind),
        forall|m: int|
            #![trigger d.opened@[m]]
            0 <= m < d.opened@.len() ==> !open@.contains(d.opened@[m])
                && exists|k: int| #[trigger] requested_before_quit(actions@, k, d.opened@[m]),
        d.opened@.no_duplicates(),
{
    let mut cur: Vec<WidgetType> = Vec::new();
    let mut j: usize = 0;
    while j < open.len()
        invariant
            j <= open@.len(),
            cur@ == open@.subrange(0, j as int),
        decreases open@.len() - j,
    {
        cur.push(open[j]);
        j = j + 1;
        assert(cur@ =~= open@.subrange(0, j as int));
    }
    assert(cur@ =~= open@);
    let mut opened: Vec<WidgetType> = Vec::new();
    let n = actions.len();
    let mut i: usize = 0;
    assert(actions@.skip(0) =~= actions@);
    assert(opened@ + windows_opened(cur@, actions@.skip(0)) =~= windows_opened(open@, actions@));
    while i < n
        invariant
            n == actions@.len(),
            i <= n,
            cur@ == open@ + opened@,
            windows_opened(open@, actions@) == opened@ + windows_opened(cur@, actions@.skip(i as int)),
            forall|k: int| 0 <= k < i ==> actions@[k] != AppAction::Quit,
        decreases n - i,
    {
        let ghost rest = actions@.skip(i as int);
        assert(rest[0] == actions@[i as int]);
        assert(rest.drop_first() =~= actions@.skip(i + 1));
        let action = actions[i];
        let kind = match action {
            AppAction::OpenSettingsWindow => WidgetType::SettingsWindow,
            AppAction::OpenAboutWindow => WidgetType::AboutWindow,
            AppAction::Quit => {
                assert(windows_opened(cur@, rest) =~= Seq::<WidgetType>::empty());
                assert(opened@ + Seq::<WidgetType>::empty() =~= opened@);
                assert(actions@[i as int] == AppAction::Quit);
                let d = Dispatch { opened, quit: true };
                proof {
                    lemma_opened_facts(open@, actions@, d.opened@);
                }
                return d;
            },
        };
        let ghost old_opened = opened@;
        let ghost old_cur = cur@;
        if add_widget_if_not_exists(&mut cur, kind) {
            opened.push(kind);
            assert(old_opened + windows_opened(old_cur, rest) =~= opened@ + windows_opened(
                cur@,
                actions@.skip(i + 1),
            ));
            assert(cur@ =~= open@ + opened@);
        }
        i = i + 1;
    }
    assert(actions@.skip(n as int) =~= Seq::<AppAction>::empty());
    assert(opened@ + Seq::<WidgetType>::empty() =~= opened@);
    let d = Dispatch { opened, quit: false };
    proof {
        lemma_opened_facts(open@, actions@, d.opened@);
    }
    d
}

/// Dispatching never opens a second widget of a kind: where no kind occurs
/// twice among the open widgets, none occurs twice once the opened windows
/// are added, and no opened window is of a kind that was open.
pub proof fn lemma_dispatch_keeps_kinds_unique(open: Seq<WidgetType>, actions: Seq<AppAction>)
    requires
        open.no_duplicates(),
    ensures
        (open + windows_opened(open, actions)).no_duplicates(),
        forall|k: int|
            0 <= k < windows_opened(open, actions).len() ==> !open.contains(
                #[trigger] windows_opened(open, actions)[k],
            ),
    decreases actions.len(),
{
    let w = windows_opened(open, actions);
    if actions.len() == 0 {
        assert(open + w =~= open);
    } else {
        match window_for(actions[0]) {
            None => {
                assert(open + w =~= open);
            },
            Some(kind) => {
                let rest = actions.drop_first();
                if open.contains(kind) {
                    lemma_dispatch_keeps_kinds_unique(open, rest);
                } else {
                    let open2 = open.push(kind);
                    assert forall|a: int, b: int|
                        0 <= a < open2.len() && 0 <= b < open2.len() && a != b implies open2[a]
                        != open2[b] by {
                        if a == open.len() as int {
                            assert(open.contains(open2[b]));
                        } else if b == open.len() as int {
                            assert(open.contains(open2[a]));
                        }
                    }
                    lemma_dispatch_keeps_kinds_unique(open2, rest);
                    let w2 = windows_opened(open2, rest);
                    assert(open + w =~= open2 + w2);
                    assert forall|k: int| 0 <= k < w.len() implies !open.contains(#[trigger] w[k]) by {
                        if k > 0 {
                            assert(w[k] == w2[k - 1]);
                            if open.contains(w[k]) {
                                let x = choose|x: int| 0 <= x < open.len() && open[x] == w[k];
                                assert(open2.contains(open2[x]));
                            }
                        }
                    }
                }
            },
        }
    }
}

} // verus!
