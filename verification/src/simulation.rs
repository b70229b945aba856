//! The 2D simulation: obstacles placed and removed by clicks, start and goal
//! markers, the planned path and the planner's recent log, and the decisions
//! taken on clicks and on messages from the planner bridge.
//!
//! Points and log entries are carried as they are (`P`, `L`); the geometry
//! that decides which obstacles a click touches is done by the caller, which
//! hands the result over as one flag per obstacle.
use vstd::prelude::*;
use vstd::string::*;
use crate::setup::SetupConfig;
use crate::text::{law_replace_keeps_unmatched_text, replace_all, replace_text, same_text};

verus! {

/// What the simulation screen holds.
pub struct SimulationState<P> {
    pub obstacles: Vec<P>,
    pub path: Vec<P>,
    pub selected_algorithm: String,
    pub start_pos: Option<P>,
    pub goal_pos: Option<P>,
}

/// The simulation state as values.
#[verifier::ext_equal]
pub struct SimView<P> {
    pub obstacles: Seq<P>,
    pub path: Seq<P>,
    pub selected_algorithm: Seq<char>,
    pub start_pos: Option<P>,
    pub goal_pos: Option<P>,
}

impl<P> View for SimulationState<P> {
    type V = SimView<P>;

    open spec fn view(&self) -> SimView<P> {
        SimView {
            obstacles: self.obstacles@,
            path: self.path@,
            selected_algorithm: self.selected_algorithm@,
            start_pos: self.start_pos,
            goal_pos: self.goal_pos,
        }
    }
}

/// The most recent planner log entries kept on screen.
pub const MAX_LOG_ENTRIES: usize = 8;

/// The planner's log as shown: the most recent entries, oldest first.
pub struct PlannerLog<L> {
    pub history: Vec<L>,
}

/// The log after recording `e`: `e` appended, and the oldest entry dropped
/// when that makes more than `MAX_LOG_ENTRIES`.
pub open spec fn logged<L>(history: Seq<L>, e: L) -> Seq<L> {
    let h = history.push(e);
    if h.len() > MAX_LOG_ENTRIES {
        h.drop_first()
    } else {
        h
    }
}

impl<L> PlannerLog<L> {
    /// No entries.
    pub fn new() -> (log: Self)
        ensures
            log.history@ == Seq::<L>::empty(),
    {
        PlannerLog { history: Vec::new() }
    }

    /// At most `MAX_LOG_ENTRIES` entries.
    pub open spec fn well_formed(&self) -> bool {
        self.history@.len() <= MAX_LOG_ENTRIES
    }

    /// Records a new entry, forgetting the oldest one beyond the limit.
    pub fn record(&mut self, e: L)
        ensures
            final(self).history@ == logged(old(self).history@, e),
    {
        self.history.push(e);
        if self.history.len() > MAX_LOG_ENTRIES {
            let _ = self.history.remove(0);
            assert(old(self).history@.push(e).remove(0) =~= old(self).history@.push(e).drop_first());
        }
    }

    /// Forgets every entry.
    pub fn clear(&mut self)
        ensures
            final(self).history@ == Seq::<L>::empty(),
    {
        self.history.clear();
    }
}

impl<L> Default for PlannerLog<L> {
    fn default() -> (log: Self)
        ensures
            log.history@ == Seq::<L>::empty(),
    {
        PlannerLog::new()
    }
}

/// The mouse buttons pressed in this frame.
#[derive(Clone, Copy, Debug, PartialEq, Eq, Structural)]
pub struct PressedButtons {
    pub left: bool,
    pub right: bool,
    pub middle: bool,
}

/// The obstacles whose flag is not set, in order.
pub open spec fn kept_unhit<P>(obstacles: Seq<P>, hits: Seq<bool>) -> Seq<P>
    decreases obstacles.len(),
{
    if obstacles.len() == 0 || hits.len() == 0 {
        seq![]
    } else {
        let rest = kept_unhit(obstacles.drop_last(), hits.drop_last());
        if hits.last() {
            rest
        } else {
            rest.push(obstacles.last())
        }
    }
}

/// Some flag is set.
pub open spec fn any_hit(hits: Seq<bool>) -> bool {
    exists|i: int| 0 <= i < hits.len() && hits[i]
}

/// A left click: the touched obstacles are removed; when none is touched, a
/// new one is placed at the clicked grid point.
pub open spec fn toggled_obstacles<P>(obstacles: Seq<P>, hits: Seq<bool>, p: P) -> Seq<P> {
    if any_hit(hits) {
        kept_unhit(obstacles, hits)
    } else {
        obstacles.push(p)
    }
}

/// The click changes the scene.
pub open spec fn click_changes(b: PressedButtons) -> bool {
    b.right || b.middle || b.left
}

/// The state after a click at grid point `p`: the right button sets the goal,
/// else the middle one the start, else the left one toggles obstacles; any of
/// these clears the planned path.
pub open spec fn clicked<P>(s: SimView<P>, b: PressedButtons, p: P, hits: Seq<bool>) -> SimView<
    P,
> {
    if b.right {
        SimView { goal_pos: Some(p), path: seq![], ..s }
    } else if b.middle {
        SimView { start_pos: Some(p), path: seq![], ..s }
    } else if b.left {
        SimView { obstacles: toggled_obstacles(s.obstacles, hits, p), path: seq![], ..s }
    } else {
        s
    }
}

/// After the scene changed, the new problem is sent to the planner when both
/// a start and a goal are set.
pub open spec fn should_publish<P>(after: SimView<P>, b: PressedButtons) -> bool {
    click_changes(b) && after.start_pos is Some && after.goal_pos is Some
}

/// The obstacles not flagged in `hits`.
fn keep_unhit<P: Copy>(obstacles: &Vec<P>, hits: &Vec<bool>) -> (kept: Vec<P>)
    requires
        hits@.len() == obstacles@.len(),
    ensures
        kept@ == kept_unhit(obstacles@, hits@),
        kept@.len() <= obstacles@.len(),
        (kept@.len() == obstacles@.len()) == !any_hit(hits@),
{
    let mut kept: Vec<P> = Vec::new();
    let mut i: usize = 0;
    let ghost mut removed = false;
    while i < obstacles.len()
        invariant
            i <= obstacles@.len() == hits@.len(),
            kept@ == kept_unhit(obstacles@.take(i as int), hits@.take(i as int)),
            removed == any_hit(hits@.take(i as int)),
            !removed ==> kept@.len() == i,
            removed ==> kept@.len() < i,
        decreases obstacles@.len() - i,
    {
        assert(obstacles@.take(i + 1).drop_last() =~= obstacles@.take(i as int));
        assert(hits@.take(i + 1).drop_last() =~= hits@.take(i as int));
        assert(hits@.take(i + 1).last() == hits@[i as int]);
        assert(obstacles@.take(i + 1).last() == obstacles@[i as int]);
        if hits[i] {
            proof {
                removed = true;
                assert(hits@.take(i + 1)[i as int]);
            }
        } else {
            kept.push(obstacles[i]);
            proof {
                if !any_hit(hits@.take(i as int)) {
                    assert forall|k: int| 0 <= k < i + 1 implies !#[trigger] hits@.take(i + 1)[k] by {
                        if k < i {
                            assert(hits@.take(i + 1)[k] == hits@.take(i as int)[k]);
                        }
                    }
                } else {
                    let k = choose|k: int| 0 <= k < i && hits@.take(i as int)[k];
                    assert(hits@.take(i + 1)[k]);
                }
            }
        }
        i = i + 1;
    }
    assert(obstacles@.take(i as int) =~= obstacles@);
    assert(hits@.take(i as int) =~= hits@);
    kept
}

impl<P: Copy> SimulationState<P> {
    /// The initial scene: no obstacles, no path, no markers, A* selected.
    pub fn new() -> (s: Self)
        ensures
            s@.obstacles == Seq::<P>::empty(),
            s@.path == Seq::<P>::empty(),
            s@.selected_algorithm == "AStar"@,
            s@.start_pos is None,
            s@.goal_pos is None,
    {
        SimulationState {
            obstacles: Vec::new(),
            path: Vec::new(),
            selected_algorithm: String::from_str("AStar"),
            start_pos: None,
            goal_pos: None,
        }
    }

    /// Handles a click at the grid point `snapped` with the buttons `buttons`,
    /// `hits` flagging the obstacles the click touches. A change of the scene
    /// also empties the planner log. Returns whether the new problem is to be
    /// sent to the planner.
    pub fn apply_click<L>(
        &mut self,
        log: &mut PlannerLog<L>,
        buttons: PressedButtons,
        snapped: P,
        hits: &Vec<bool>,
    ) -> (publish: bool)
        requires
            hits@.len() == old(self).obstacles@.len(),
        ensures
            final(self)@ == clicked(old(self)@, buttons, snapped, hits@),
            click_changes(buttons) ==> final(log).history@ == Seq::<L>::empty(),
            !click_changes(buttons) ==> final(log).history@ == old(log).history@,
            publish == should_publish(final(self)@, buttons),
    {
        let ghost before = self@;
        let mut changed = false;
        if buttons.right {
            self.goal_pos = Some(snapped);
            changed = true;
        } else if buttons.middle {
            self.start_pos = Some(snapped);
            changed = true;
        } else if buttons.left {
            let kept = keep_unhit(&self.obstacles, hits);
            if kept.len() < self.obstacles.len() {
                self.obstacles = kept;
            } else {
                self.obstacles.push(snapped);
            }
            changed = true;
        }
        if changed {
            self.path.clear();
            log.clear();
            assert(self@ =~= clicked(before, buttons, snapped, hits@));
            self.start_pos.is_some() && self.goal_pos.is_some()
        } else {
            false
        }
    }

    /// Replaces the planned path with one received from the planner.
    pub fn set_path(&mut self, path: Vec<P>)
        ensures
            final(self)@ == (SimView { path: path@, ..old(self)@ }),
    {
        self.path = path;
    }

    /// Forgets the planned path.
    pub fn clear_path(&mut self)
        ensures
            final(self)@ == (SimView { path: Seq::<P>::empty(), ..old(self)@ }),
    {
        self.path.clear();
    }
}

impl<P: Copy> Default for SimulationState<P> {
    fn default() -> (s: Self)
        ensures
            s@.obstacles == Seq::<P>::empty(),
            s@.path == Seq::<P>::empty(),
            s@.selected_algorithm == "AStar"@,
            s@.start_pos is None,
            s@.goal_pos is None,
    {
        SimulationState::new()
    }
}

/// Pressing the start button: when every setting is chosen, the simulation
/// takes the chosen algorithm and `true` is returned (the planner map is then
/// to be set and the loading screen shown); otherwise nothing changes.
pub fn start_simulation<P>(config: &SetupConfig, sim: &mut SimulationState<P>) -> (go: bool)
    ensures
        go == config@.is_ready(),
        go ==> final(sim)@ == (SimView { selected_algorithm: config.algorithm@, ..old(sim)@ }),
        !go ==> final(sim)@ == old(sim)@,
{
    if !config.is_ready() {
        return false;
    }
    sim.selected_algorithm = config.algorithm.clone();
    true
}

/// The kinds of message received from the planner bridge.
#[derive(Clone, Copy, Debug, PartialEq, Eq, Structural)]
pub enum BridgeMessageKind {
    /// A new planned path.
    Plan,
    /// An entry of the planner's calculation log.
    PlannerLog,
    /// Anything else, which is ignored.
    Ignored,
}

/// The kind of a bridge message with operation `op` on topic `topic`.
pub open spec fn message_kind(op: Seq<char>, topic: Seq<char>) -> BridgeMessageKind {
    if op == "publish"@ && topic == "/plan"@ {
        BridgeMessageKind::Plan
    } else if op == "publish"@ && topic == "/planner_log"@ {
        BridgeMessageKind::PlannerLog
    } else {
        BridgeMessageKind::Ignored
    }
}

/// Classifies a bridge message by its `op` and `topic` fields.
pub fn classify_bridge_message(op: &str, topic: &str) -> (k: BridgeMessageKind)
    ensures
        k == message_kind(op@, topic@),
{
    if !same_text(op, "publish") {
        BridgeMessageKind::Ignored
    } else if same_text(topic, "/plan") {
        BridgeMessageKind::Plan
    } else if same_text(topic, "/planner_log") {
        BridgeMessageKind::PlannerLog
    } else {
        BridgeMessageKind::Ignored
    }
}

/// How a log entry's cost is explained for each algorithm.
#[derive(Clone, Copy, Debug, PartialEq, Eq, Structural)]
pub enum FormulaKind {
    /// `f = g + h` (A*).
    CostPlusHeuristic,
    /// `f = g` (uniform-cost search).
    CostOnly,
    /// `f = h` (greedy best-first search).
    HeuristicOnly,
    /// Only `f`, for any other algorithm.
    TotalOnly,
}

/// The formula shown for an algorithm.
pub open spec fn formula_for(algorithm: Seq<char>) -> FormulaKind {
    if algorithm == "AStar"@ {
        FormulaKind::CostPlusHeuristic
    } else if algorithm == "UCS"@ {
        FormulaKind::CostOnly
    } else if algorithm == "GBFS"@ {
        FormulaKind::HeuristicOnly
    } else {
        FormulaKind::TotalOnly
    }
}

impl FormulaKind {
    /// The formula shown for `algorithm`.
    pub fn for_algorithm(algorithm: &str) -> (k: FormulaKind)
        ensures
            k == formula_for(algorithm@),
    {
        if same_text(algorithm, "AStar") {
            FormulaKind::CostPlusHeuristic
        } else if same_text(algorithm, "UCS") {
            FormulaKind::CostOnly
        } else if same_text(algorithm, "GBFS") {
            FormulaKind::HeuristicOnly
        } else {
            FormulaKind::TotalOnly
        }
    }
}

/// The image shown under the grid for a map: `"Test/maps/"` and the map's
/// name with every `.yaml` replaced by `.png`; none when no map is chosen.
pub open spec fn map_image(map_name: Seq<char>) -> Option<Seq<char>> {
    if map_name.len() == 0 {
        None
    } else {
        Some("Test/maps/"@ + replace_all(map_name, ".yaml"@, ".png"@))
    }
}

/// The asset path of the image of the chosen map, if a map is chosen.
pub fn map_image_path(map_name: &str) -> (p: Option<String>)
    ensures
        p is None <==> map_image(map_name@) is None,
        p matches Some(s) ==> map_image(map_name@) == Some(s@),
{
    if map_name.is_empty() {
        return None;
    }
    proof {
        reveal_strlit(".yaml");
    }
    let png = replace_text(map_name, ".yaml", ".png");
    let mut s = String::from_str("Test/maps/");
    s.append(png.as_str());
    Some(s)
}

/// The number of set flags.
pub open spec fn hit_count(hits: Seq<bool>) -> nat
    decreases hits.len(),
{
    if hits.len() == 0 {
        0
    } else {
        hit_count(hits.drop_last()) + if hits.last() {
            1nat
        } else {
            0nat
        }
    }
}

/// The log never holds more than `MAX_LOG_ENTRIES` entries, the entry just
/// recorded is the last one, and the entries kept are the most recent ones
/// in the order they came.
pub proof fn law_log_keeps_most_recent<L>(history: Seq<L>, e: L)
    requires
        history.len() <= MAX_LOG_ENTRIES,
    ensures
        logged(history, e).len() <= MAX_LOG_ENTRIES,
        logged(history, e).last() == e,
        logged(history, e) == history.push(e).skip(
            history.len() + 1 - logged(history, e).len(),
        ),
        logged(history, e).len() == if history.len() < MAX_LOG_ENTRIES {
            history.len() + 1int
        } else {
            MAX_LOG_ENTRIES as int
        },
{
    assert(history.push(e).skip(0) =~= history.push(e));
    assert(history.push(e).drop_first() =~= history.push(e).skip(1));
}

/// A click that changes the scene empties the planned path; one that does
/// not leaves everything as it was.
pub proof fn law_click_clears_path<P>(s: SimView<P>, b: PressedButtons, p: P, hits: Seq<bool>)
    ensures
        click_changes(b) ==> clicked(s, b, p, hits).path.len() == 0,
        click_changes(b) ==> clicked(s, b, p, hits).selected_algorithm == s.selected_algorithm,
        !click_changes(b) ==> clicked(s, b, p, hits) == s,
{
}

proof fn lemma_kept_unhit_none<P>(obstacles: Seq<P>, hits: Seq<bool>)
    requires
        hits.len() == obstacles.len(),
        !any_hit(hits),
    ensures
        kept_unhit(obstacles, hits) == obstacles,
    decreases obstacles.len(),
{
    if obstacles.len() > 0 {
        assert(!any_hit(hits.drop_last())) by {
            if any_hit(hits.drop_last()) {
                let k = choose|k: int| 0 <= k < hits.drop_last().len() && hits.drop_last()[k];
                assert(hits[k]);
            }
        }
        assert(!hits[hits.len() - 1]);
        lemma_kept_unhit_none(obstacles.drop_last(), hits.drop_last());
        assert(obstacles.drop_last().push(obstacles.last()) =~= obstacles);
    }
}

/// Removing touched obstacles keeps exactly the untouched ones: as many as
/// there are unset flags.
pub proof fn law_removal_keeps_untouched<P>(obstacles: Seq<P>, hits: Seq<bool>)
    requires
        hits.len() == obstacles.len(),
    ensures
        kept_unhit(obstacles, hits).len() + hit_count(hits) == obstacles.len(),
        !any_hit(hits) ==> kept_unhit(obstacles, hits) == obstacles,
    decreases obstacles.len(),
{
    if obstacles.len() > 0 {
        law_removal_keeps_untouched(obstacles.drop_last(), hits.drop_last());
    }
    if !any_hit(hits) {
        lemma_kept_unhit_none(obstacles, hits);
    }
}

/// A left click on empty ground places an obstacle there; a second left click
/// that touches only that obstacle takes it away again.
pub proof fn law_obstacle_click_undone<P>(s: SimView<P>, p: P, hits: Seq<bool>, q: P)
    requires
        hits.len() == s.obstacles.len(),
        !any_hit(hits),
    ensures
        ({
            let b = PressedButtons { left: true, right: false, middle: false };
            let s1 = clicked(s, b, p, hits);
            let hits2 = hits.push(true);
            &&& s1.obstacles == s.obstacles.push(p)
            &&& clicked(s1, b, q, hits2).obstacles == s.obstacles
        }),
        forall|h: Seq<bool>|
            h.len() == s.obstacles.len() && any_hit(h) ==> #[trigger] clicked(
                s,
                PressedButtons { left: true, right: false, middle: false },
                p,
                h,
            ).obstacles.len() + hit_count(h) == s.obstacles.len(),
{
    assert forall|h: Seq<bool>| h.len() == s.obstacles.len() && any_hit(h) implies #[trigger] clicked(
        s,
        PressedButtons { left: true, right: false, middle: false },
        p,
        h,
    ).obstacles.len() + hit_count(h) == s.obstacles.len() by {
        law_removal_keeps_untouched(s.obstacles, h);
    }
    let hits2 = hits.push(true);
    assert(hits2.drop_last() =~= hits);
    assert(hits2[hits.len() as int]);
    assert(s.obstacles.push(p).drop_last() =~= s.obstacles);
    lemma_kept_unhit_none(s.obstacles, hits);
}

/// Once a start is set, setting a goal sends the problem to the planner, and
/// the other way round; with a marker missing nothing is sent.
pub proof fn law_publish_needs_both_markers<P>(s: SimView<P>, p: P, hits: Seq<bool>)
    ensures
        s.start_pos is Some ==> should_publish(
            clicked(s, PressedButtons { left: false, right: true, middle: false }, p, hits),
            PressedButtons { left: false, right: true, middle: false },
        ),
        s.goal_pos is Some ==> should_publish(
            clicked(s, PressedButtons { left: false, right: false, middle: true }, p, hits),
            PressedButtons { left: false, right: false, middle: true },
        ),
        forall|b: PressedButtons|
            (s.start_pos is None || s.goal_pos is None) && !b.right && !b.middle ==> !should_publish(
                #[trigger] clicked(s, b, p, hits),
                b,
            ),
{
}

/// Every click that changes the scene (left, right or middle button) sends
/// the new problem to the planner when start and goal are both set after it,
/// and no click sends it otherwise. A left click leaves the markers as they
/// are, so one with both markers set always sends; a right click sets the goal
/// to the clicked point and a middle click (without the right) the start.
pub proof fn law_changed_scene_is_sent<P>(s: SimView<P>, b: PressedButtons, p: P, hits: Seq<bool>)
    ensures
        (b.left || b.right || b.middle) && clicked(s, b, p, hits).start_pos is Some && clicked(
            s,
            b,
            p,
            hits,
        ).goal_pos is Some ==> should_publish(clicked(s, b, p, hits), b),
        should_publish(clicked(s, b, p, hits), b) ==> (b.left || b.right || b.middle)
            && clicked(s, b, p, hits).start_pos is Some && clicked(s, b, p, hits).goal_pos is Some,
        b.left && !b.right && !b.middle ==> clicked(s, b, p, hits).start_pos == s.start_pos
            && clicked(s, b, p, hits).goal_pos == s.goal_pos,
        b.left && !b.right && !b.middle && s.start_pos is Some && s.goal_pos is Some
            ==> should_publish(clicked(s, b, p, hits), b),
        b.right ==> clicked(s, b, p, hits).goal_pos == Some(p) && clicked(s, b, p, hits).start_pos
            == s.start_pos,
        b.middle && !b.right ==> clicked(s, b, p, hits).start_pos == Some(p) && clicked(
            s,
            b,
            p,
            hits,
        ).goal_pos == s.goal_pos,
        b.left || b.right || b.middle ==> clicked(s, b, p, hits).path.len() == 0,
{
}

/// A map file `<n>.yaml`, where no `.yaml` starts inside `<n>`, is shown from
/// the image `Test/maps/<n>.png`; no image is shown without a map.
pub proof fn law_map_image_of_yaml_file(n: Seq<char>)
    requires
        forall|i: int|
            0 <= i < n.len() && i + 5 <= n.len() + 5 ==> #[trigger] (n + ".yaml"@).subrange(i, i + 5)
                != ".yaml"@,
    ensures
        map_image(n + ".yaml"@) == Some("Test/maps/"@ + n + ".png"@),
        map_image(Seq::empty()) is None,
{
    reveal_strlit(".yaml");
    assert(".yaml"@.len() == 5);
    law_replace_keeps_unmatched_text(n, ".yaml"@, ".yaml"@, ".png"@);
    law_replace_keeps_unmatched_text(Seq::empty(), Seq::empty(), ".yaml"@, ".png"@);
    assert(".yaml"@ + Seq::<char>::empty() =~= ".yaml"@);
    assert(replace_all(Seq::empty(), ".yaml"@, ".png"@) == Seq::<char>::empty());
    assert(".png"@ + Seq::<char>::empty() =~= ".png"@);
    assert((n + ".yaml"@).len() > 0);
    assert("Test/maps/"@ + (n + ".png"@) =~= "Test/maps/"@ + n + ".png"@);
}

/// Only published messages are acted on, and the two topics lead to
/// different actions.
pub proof fn law_only_published_messages_count(op: Seq<char>, topic: Seq<char>)
    ensures
        op != "publish"@ ==> message_kind(op, topic) == BridgeMessageKind::Ignored,
        message_kind(op, topic) == BridgeMessageKind::Plan ==> topic == "/plan"@,
        message_kind(op, topic) == BridgeMessageKind::PlannerLog ==> topic == "/planner_log"@,
        op == "publish"@ && topic != "/plan"@ && topic != "/planner_log"@ ==> message_kind(op, topic)
            == BridgeMessageKind::Ignored,
{
}

/// A name without the pattern is left as it is by the replacement.
pub proof fn law_replace_without_match_is_identity(s: Seq<char>, pat: Seq<char>, rep: Seq<char>)
    requires
        pat.len() > 0,
        forall|i: int| 0 <= i <= s.len() - pat.len() ==> #[trigger] s.subrange(i, i + pat.len())
            != pat,
    ensures
        replace_all(s, pat, rep) == s,
    decreases s.len(),
{
    if s.len() >= pat.len() {
        let first = s.subrange(0, 0int + pat.len());
        assert(first != pat);
        assert(first =~= s.take(pat.len() as int));
        assert forall|i: int|
            0 <= i <= s.drop_first().len() - pat.len() implies #[trigger] s.drop_first().subrange(
            i,
            i + pat.len(),
        ) != pat by {
            assert(s.drop_first().subrange(i, i + pat.len()) =~= s.subrange(i + 1, i + 1 + pat.len()));
        }
        law_replace_without_match_is_identity(s.drop_first(), pat, rep);
        assert(seq![s[0]] + s.drop_first() =~= s);
    }
}

} // verus!
