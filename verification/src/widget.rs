use vstd::prelude::*;

use crate::sim_state::SimConfig;

verus! {

/// The kinds of UI widget; at most one widget of each kind is open.
#[derive(Clone, Copy, Debug, PartialEq, Eq, Structural)]
pub enum WidgetType {
    MenuBar,
    StatusOverlay,
    PhysicsOverlay,
    SettingsWindow,
    AboutWindow,
}

/// Whether a widget of kind `kind` is among the open widgets, whose kinds
/// are `open`.
pub fn widget_exists(open: &Vec<WidgetType>, kind: WidgetType) -> (r: bool)
    ensures
        r == open@.contains(kind),
{
    let mut i: usize = 0;
    while i < open.len()
        invariant
            i <= open@.len(),
            forall|k: int| 0 <= k < i ==> open@[k] != kind,
        decreases open@.len() - i,
    {
        if open[i] == kind {
            assert(open@[i as int] == kind);
            return true;
        }
        i = i + 1;
    }
    false
}

/// Adds a widget of kind `kind` to the open widgets, whose kinds are `open`,
/// unless one of that kind is open already. Returns whether it was added.
pub fn add_widget_if_not_exists(open: &mut Vec<WidgetType>, kind: WidgetType) -> (added: bool)
    ensures
        added == !old(open)@.contains(kind),
        final(open)@ == if added { old(open)@.push(kind) } else { old(open)@ },
{
    if widget_exists(open, kind) {
        false
    } else {
        open.push(kind);
        true
    }
}

/// The widgets still open after a frame in which `closed[i]` tells whether
/// widget `i` closed itself: the indices of those that did not, ascending.
pub fn widgets_still_open(closed: &Vec<bool>) -> (r: Vec<usize>)
    ensures
        forall|i: int| 0 <= i < closed@.len() ==> (r@.contains(i as usize) <==> !closed@[i]),
        forall|k: int| 0 <= k < r@.len() ==> #[trigger] r@[k] < closed@.len(),
        forall|a: int, b: int| 0 <= a < b < r@.len() ==> #[trigger] r@[a] < #[trigger] r@[b],
{
    let mut r: Vec<usize> = Vec::new();
    let mut i: usize = 0;
    while i < closed.len()
        invariant
            i <= closed@.len(),
            forall|j: int| 0 <= j < i ==> (r@.contains(j as usize) <==> !closed@[j]),
            forall|k: int| 0 <= k < r@.len() ==> #[trigger] r@[k] < i,
            forall|a: int, b: int| 0 <= a < b < r@.len() ==> #[trigger] r@[a] < #[trigger] r@[b],
        decreases closed@.len() - i,
    {
        let ghost before = r@;
        if !closed[i] {
            r.push(i);
            assert(r@[r@.len() - 1] == i);
        }
        assert forall|j: int| 0 <= j <= i implies (r@.contains(j as usize) <==> !closed@[j]) by {
            if j < i {
                if before.contains(j as usize) {
                    let x = choose|x: int| 0 <= x < before.len() && before[x] == j as usize;
                    assert(r@[x] == j as usize);
                }
                if r@.contains(j as usize) {
                    let x = choose|x: int| 0 <= x < r@.len() && r@[x] == j as usize;
                    if x < before.len() {
                        assert(before[x] == j as usize);
                    }
                }
            } else {
                if r@.contains(j as usize) && closed@[j] {
                    let x = choose|x: int| 0 <= x < r@.len() && r@[x] == j as usize;
                    assert(r@[x] < i);
                }
            }
        }
        i = i + 1;
    }
    r
}

/// A line of information shown beside the selected body.
#[derive(Clone, Copy, Debug, PartialEq, Eq, Structural)]
pub enum InfoLine {
    Mass,
    Velocity,
    KineticEnergy,
    PotentialEnergy,
    Lagrangian,
}

/// `line` alone where `shown`, otherwise nothing.
pub open spec fn line_if(shown: bool, line: InfoLine) -> Seq<InfoLine> {
    if shown {
        seq![line]
    } else {
        Seq::empty()
    }
}

/// The information lines that the settings show, in display order.
pub open spec fn info_lines_of(config: SimConfig) -> Seq<InfoLine> {
    line_if(config.render_mass, InfoLine::Mass) + line_if(config.render_vel, InfoLine::Velocity)
        + line_if(config.render_ke, InfoLine::KineticEnergy) + line_if(
        config.render_pe,
        InfoLine::PotentialEnergy,
    ) + line_if(config.render_lagrangian, InfoLine::Lagrangian)
}

/// Place of an information line in the display order.
pub open spec fn info_line_rank(line: InfoLine) -> int {
    match line {
        InfoLine::Mass => 0,
        InfoLine::Velocity => 1,
        InfoLine::KineticEnergy => 2,
        InfoLine::PotentialEnergy => 3,
        InfoLine::Lagrangian => 4,
    }
}

proof fn lemma_append_line(s: Seq<InfoLine>, shown: bool, line: InfoLine)
    requires
        forall|a: int, b: int|
            0 <= a < b < s.len() ==> info_line_rank(#[trigger] s[a]) < info_line_rank(#[trigger] s[b]),
        forall|k: int| 0 <= k < s.len() ==> info_line_rank(#[trigger] s[k]) < info_line_rank(line),
    ensures
        forall|a: int, b: int|
            0 <= a < b < (s + line_if(shown, line)).len() ==> info_line_rank(
                #[trigger] (s + line_if(shown, line))[a],
            ) < info_line_rank(#[trigger] (s + line_if(shown, line))[b]),
        forall|k: int|
            0 <= k < (s + line_if(shown, line)).len() ==> info_line_rank(
                #[trigger] (s + line_if(shown, line))[k],
            ) <= info_line_rank(line),
        forall|x: InfoLine|
            #[trigger] (s + line_if(shown, line)).contains(x) <==> (s.contains(x) || (shown && x
                == line)),
{
    let t = s + line_if(shown, line);
    assert forall|k: int| 0 <= k < t.len() implies #[trigger] t[k] == (if k < s.len() {
        s[k]
    } else {
        line
    }) by {}
    assert forall|x: InfoLine| t.contains(x) <==> (s.contains(x) || (shown && x == line)) by {
        if s.contains(x) {
            let k = choose|k: int| 0 <= k < s.len() && s[k] == x;
            assert(t[k] == x);
        }
        if shown && x == line {
            assert(t[s.len() as int] == x);
        }
        if t.contains(x) {
            let k = choose|k: int| 0 <= k < t.len() && t[k] == x;
            if k < s.len() {
                assert(s[k] == x);
            }
        }
    }
}

/// Each information line is shown exactly when its own setting is on, and
/// the lines shown come in the order mass, velocity, kinetic energy,
/// potential energy, Lagrangian, none twice.
pub proof fn lemma_info_lines_shown_exactly_when_enabled(config: SimConfig)
    ensures
        info_lines_of(config).contains(InfoLine::Mass) == config.render_mass,
        info_lines_of(config).contains(InfoLine::Velocity) == config.render_vel,
        info_lines_of(config).contains(InfoLine::KineticEnergy) == config.render_ke,
        info_lines_of(config).contains(InfoLine::PotentialEnergy) == config.render_pe,
        info_lines_of(config).contains(InfoLine::Lagrangian) == config.render_lagrangian,
        forall|a: int, b: int|
            0 <= a < b < info_lines_of(config).len() ==> info_line_rank(
                #[trigger] info_lines_of(config)[a],
            ) < info_line_rank(#[trigger] info_lines_of(config)[b]),
{
    let e = Seq::<InfoLine>::empty();
    let s0 = e + line_if(config.render_mass, InfoLine::Mass);
    lemma_append_line(e, config.render_mass, InfoLine::Mass);
    let s1 = s0 + line_if(config.render_vel, InfoLine::Velocity);
    lemma_append_line(s0, config.render_vel, InfoLine::Velocity);
    let s2 = s1 + line_if(config.render_ke, InfoLine::KineticEnergy);
    lemma_append_line(s1, config.render_ke, InfoLine::KineticEnergy);
    let s3 = s2 + line_if(config.render_pe, InfoLine::PotentialEnergy);
    lemma_append_line(s2, config.render_pe, InfoLine::PotentialEnergy);
    let s4 = s3 + line_if(config.render_lagrangian, InfoLine::Lagrangian);
    lemma_append_line(s3, config.render_lagrangian, InfoLine::Lagrangian);
    assert(e + line_if(config.render_mass, InfoLine::Mass) =~= line_if(config.render_mass, InfoLine::Mass));
    assert(s4 == info_lines_of(config));
    assert forall|x: InfoLine| !e.contains(x) by {}
    assert forall|x: InfoLine| #[trigger] s4.contains(x) == (
        (config.render_mass && x == InfoLine::Mass)
        || (config.render_vel && x == InfoLine::Velocity)
        || (config.render_ke && x == InfoLine::KineticEnergy)
        || (config.render_pe && x == InfoLine::PotentialEnergy)
        || (config.render_lagrangian && x == InfoLine::Lagrangian)) by {
        assert(s0.contains(x) == (e.contains(x) || (config.render_mass && x == InfoLine::Mass)));
        assert(s1.contains(x) == (s0.contains(x) || (config.render_vel && x == InfoLine::Velocity)));
        assert(s2.contains(x) == (s1.contains(x) || (config.render_ke && x == InfoLine::KineticEnergy)));
        assert(s3.contains(x) == (s2.contains(x) || (config.render_pe && x == InfoLine::PotentialEnergy)));
        assert(s4.contains(x) == (s3.contains(x) || (config.render_lagrangian && x == InfoLine::Lagrangian)));
    }
    assert(s4.contains(InfoLine::Mass) == config.render_mass);
    assert(s4.contains(InfoLine::Velocity) == config.render_vel);
    assert(s4.contains(InfoLine::KineticEnergy) == config.render_ke);
    assert(s4.contains(InfoLine::PotentialEnergy) == config.render_pe);
    assert(s4.contains(InfoLine::Lagrangian) == config.render_lagrangian);
}

/// Which information lines to show beside the selected body, in display
/// order: mass, velocity, kinetic energy, potential energy and Lagrangian,
/// each only where the settings enable it.
pub fn selected_body_info_lines(config: &SimConfig) -> (r: Vec<InfoLine>)
    ensures
        r@ == info_lines_of(*config),
        r@.contains(InfoLine::Mass) == config.render_mass,
        r@.contains(InfoLine::Velocity) == config.render_vel,
        r@.contains(InfoLine::KineticEnergy) == config.render_ke,
        r@.contains(InfoLine::PotentialEnergy) == config.render_pe,
        r@.contains(InfoLine::Lagrangian) == config.render_lagrangian,
        forall|a: int, b: int|
            0 <= a < b < r@.len() ==> info_line_rank(#[trigger] r@[a]) < info_line_rank(
                #[trigger] r@[b],
            ),
{
    let mut r: Vec<InfoLine> = Vec::new();
    if config.render_mass {
        r.push(InfoLine::Mass);
    }
    if config.render_vel {
        r.push(InfoLine::Velocity);
    }
    if config.render_ke {
        r.push(InfoLine::KineticEnergy);
    }
    if config.render_pe {
        r.push(InfoLine::PotentialEnergy);
    }
    if config.render_lagrangian {
        r.push(InfoLine::Lagrangian);
    }
    assert(r@ =~= info_lines_of(*config));
    proof {
        lemma_info_lines_shown_exactly_when_enabled(*config);
    }
    r
}

/// The body the camera centres on: the selected body, while focusing and
/// while the selection names one of the `n_bodies` bodies; otherwise none.
pub fn camera_follow_target(focusing: bool, selected: Option<usize>, n_bodies: usize) -> (r: Option<usize>)
    ensures
        r == (if focusing && (selected matches Some(i) && i < n_bodies) {
            selected
        } else {
            None
        }),
{
    match selected {
        Some(i) => if focusing && i < n_bodies {
            Some(i)
        } else {
            None
        },
        None => None,
    }
}

} // verus!
