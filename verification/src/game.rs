//! Rounds of the puzzle: the grid of a round, its candidate nets, and the
//! session that plays round after round.

use vstd::prelude::*;
use crate::columngrid::{
    highest, is_changed, is_drawn_height, is_playable, is_square, lemma_changed_is_square,
    lemma_count_occupied_bound, ColumnGrid, Heights,
};
use crate::config::{
    ANIM_BETWEEN_SLIDES_FRAMES, ANIM_SLIDE_IN_LEN_FRAMES, ANIM_SLIDE_OUT_LEN_FRAMES,
    COLUMN_GRID_SIDELEN, NET_COUNT, NET_LAYER, NET_RANDOM_CHANGES, NET_TEX_INDEX,
    TIMER_DEFAULT_MAX, TIMER_REDUCTION_PERCENT, TIMER_TIMEOUT, TIMER_UNITS_PER_FRAME,
};
use crate::net::{
    equivalent, is_square_net, lemma_equivalent_reflexive, lemma_equivalent_symmetric,
    lemma_projection_is_square, projection, Net, Squares,
};
use crate::random::random_below;

verus! {

/// Why no grid, or no round, could be generated.
#[derive(Clone, Copy, Debug, PartialEq, Eq, Structural)]
pub enum GenerationError {
    /// The side length or the number of nets admits no result at all.
    Configuration,
    /// Every allowed attempt was rejected.
    Exhausted,
}

/// No two of the nets are structurally equivalent.
pub open spec fn pairwise_distinct(nets: Seq<Net>) -> bool {
    forall|i: int, j: int|
        0 <= i < nets.len() && 0 <= j < nets.len() && i != j ==> !equivalent(
            #[trigger] nets[i]@,
            #[trigger] nets[j]@,
        )
}

/// `net` is the net of a grid that comes from `g` by the fixed number of
/// random changes and has a column more than 1 high.
pub open spec fn is_decoy_of(net: Squares, g: Heights) -> bool {
    exists|m: Heights|
        is_changed(g, m, g.len() as int, NET_RANDOM_CHANGES as nat) && highest(m) > 1
            && net == #[trigger] projection(m, NET_TEX_INDEX, NET_LAYER)
}

/// `candidate` may join a round: it is equivalent neither to the correct net
/// nor to any net placed before it.
pub open spec fn is_usable(candidate: Squares, correct: Squares, placed: Seq<Net>) -> bool {
    &&& !equivalent(candidate, correct)
    &&& forall|k: int| 0 <= k < placed.len() ==> !equivalent((#[trigger] placed[k])@, candidate)
}

/// One round of the puzzle: the candidate nets in the order they are shown,
/// the place of the one that belongs to the grid, and the grid itself.
#[derive(Debug)]
pub struct Round {
    pub nets: Vec<Net>,
    pub correct_index: usize,
    pub source_grid: ColumnGrid,
}

impl Round {
    /// The round is fair: the net at `correct_index` is the net of the grid,
    /// every other net is a decoy of it, and no two nets are equivalent.
    pub open spec fn wf(&self) -> bool {
        &&& self.source_grid.wf()
        &&& self.correct_index < self.nets.len()
        &&& forall|i: int| 0 <= i < self.nets.len() ==> is_square_net(
            (#[trigger] self.nets[i])@,
            self.source_grid.sidelen as int,
        )
        &&& self.nets[self.correct_index as int]@ == projection(
            self.source_grid@,
            NET_TEX_INDEX,
            NET_LAYER,
        )
        &&& forall|i: int| 0 <= i < self.nets.len() && i != self.correct_index ==> is_decoy_of(
            (#[trigger] self.nets[i])@,
            self.source_grid@,
        )
        &&& pairwise_distinct(self.nets@)
    }
}

/// The nets at any two different places of a fair round are not structurally
/// equivalent.
pub proof fn lemma_round_nets_distinct(round: Round, i: int, j: int)
    requires
        round.wf(),
        0 <= i < round.nets.len(),
        0 <= j < round.nets.len(),
        i != j,
    ensures
        !equivalent(round.nets[i]@, round.nets[j]@),
{
}

/// Exactly one net of a fair round is structurally equivalent to the net of
/// the round's grid: the one at the correct place.
pub proof fn lemma_round_has_one_correct_net(round: Round, i: int)
    requires
        round.wf(),
        0 <= i < round.nets.len(),
    ensures
        equivalent(
            round.nets[i]@,
            projection(round.source_grid@, NET_TEX_INDEX, NET_LAYER),
        ) <==> i == round.correct_index,
{
    if i != round.correct_index {
        lemma_round_nets_distinct(round, i, round.correct_index as int);
    } else {
        lemma_equivalent_reflexive(round.nets[i]@);
    }
}

/// No grid of side below 3 makes a puzzle: it has too few columns.
pub proof fn lemma_small_grid_not_playable(g: Heights, n: int)
    requires
        is_square(g, n),
        0 <= n < 3,
    ensures
        !is_playable(g),
{
    lemma_count_occupied_bound(g, n, n);
    assert(n * n <= 4) by (nonlinear_arith)
        requires
            0 <= n < 3,
    ;
}

/// `g` is a square grid of side `n` in which every height is one that some
/// raw draw gives its column.
pub open spec fn is_drawn_grid(g: Heights, n: int) -> bool {
    &&& is_square(g, n)
    &&& forall|x: int, y: int| 0 <= x < n && 0 <= y < n ==> is_drawn_height(#[trigger] g[x][y], x, y, n)
}

/// Each of `tries` is a drawn grid of side `n` that makes no puzzle.
pub open spec fn all_unplayable(tries: Seq<Heights>, n: int) -> bool {
    forall|i: int| 0 <= i < tries.len() ==> is_drawn_grid(#[trigger] tries[i], n) && !is_playable(tries[i])
}

/// `max_attempts` grids of side `n` were drawn, and none makes a puzzle.
pub open spec fn grids_exhausted(n: int, max_attempts: u32) -> bool {
    exists|tries: Seq<Heights>| tries.len() == max_attempts && #[trigger] all_unplayable(tries, n)
}

/// For one place of a round for the grid `g`, `max_attempts` changed copies
/// of `g` were drawn, and each was rejected next to the net of `g` and the
/// nets placed before.
pub open spec fn decoys_exhausted(g: Heights, max_attempts: u32) -> bool {
    exists|placed: Seq<Net>, tries: Seq<Heights>|
        tries.len() == max_attempts && #[trigger] all_rejected(
            g,
            tries,
            projection(g, NET_TEX_INDEX, NET_LAYER),
            placed,
        )
}

/// No round of the configured size came of `max_attempts` tries: either
/// none of that many drawn grids makes a puzzle, or for a drawn grid that
/// does, one place of the round found no decoy in that many tries.
pub open spec fn round_exhausted(max_attempts: u32) -> bool {
    ||| grids_exhausted(COLUMN_GRID_SIDELEN as int, max_attempts)
    ||| exists|g: Heights|
        is_drawn_grid(g, COLUMN_GRID_SIDELEN as int) && is_playable(g) && #[trigger] decoys_exhausted(
            g,
            max_attempts,
        )
}

/// A random grid that makes a puzzle: the first of at most `max_attempts`
/// drawn grids that does. A side below 3 is a configuration error, since no
/// grid that small makes a puzzle; where none of `max_attempts` grids does,
/// the tries are exhausted.
pub fn gen_cg(sidelen: u8, max_attempts: u32) -> (out: Result<ColumnGrid, GenerationError>)
    ensures
        match out {
            Ok(g) => {
                &&& sidelen >= 3
                &&& max_attempts > 0
                &&& g.wf()
                &&& g.sidelen == sidelen
                &&& is_playable(g@)
                &&& is_drawn_grid(g@, sidelen as int)
            },
            Err(GenerationError::Configuration) => sidelen < 3,
            Err(GenerationError::Exhausted) => sidelen >= 3 && grids_exhausted(
                sidelen as int,
                max_attempts,
            ),
        },
{
    if sidelen < 3 {
        return Err(GenerationError::Configuration);
    }
    let mut attempts: u32 = 0;
    let ghost mut tries: Seq<Heights> = Seq::empty();
    while attempts < max_attempts
        invariant
            sidelen >= 3,
            attempts <= max_attempts,
            tries.len() == attempts,
            all_unplayable(tries, sidelen as int),
        decreases max_attempts - attempts,
    {
        let next_cg = ColumnGrid::new_random(sidelen);
        if next_cg.is_playable() {
            return Ok(next_cg);
        }
        proof {
            tries = tries.push(next_cg@);
        }
        attempts += 1;
    }
    Err(GenerationError::Exhausted)
}

/// Whether `candidate` may join a round next to `correct` and the nets in
/// `placed`.
pub fn is_usable_net(candidate: &Net, correct: &Net, placed: &Vec<Net>) -> (usable: bool)
    requires
        candidate@.len() == correct@.len(),
        forall|k: int| 0 <= k < placed.len() ==> (#[trigger] placed[k])@.len() == candidate@.len(),
    ensures
        usable == is_usable(candidate@, correct@, placed@),
{
    let mut usable = true;
    if candidate.is_identical(correct) {
        usable = false;
    }
    let mut k: usize = 0;
    while k < placed.len()
        invariant
            k <= placed.len(),
            forall|k: int| 0 <= k < placed.len() ==> (#[trigger] placed[k])@.len() == candidate@.len(),
            usable == (!equivalent(candidate@, correct@) && forall|j: int| 0 <= j < k ==> !equivalent(
                (#[trigger] placed[j])@,
                candidate@,
            )),
        decreases placed.len() - k,
    {
        if placed[k].is_identical(candidate) {
            usable = false;
        }
        k += 1;
    }
    usable
}

/// The net of a changed grid as a candidate for a round: none where no column
/// of the grid is more than 1 high.
pub fn candidate_net(changed: &ColumnGrid) -> (out: Option<Net>)
    requires
        changed.wf(),
    ensures
        match out {
            Some(net) => {
                &&& highest(changed@) > 1
                &&& net@ == projection(changed@, NET_TEX_INDEX, NET_LAYER)
                &&& net.spec_layer() == NET_LAYER
            },
            None => highest(changed@) <= 1,
        },
{
    if changed.highest_column() > 1 {
        Some(Net::from_columngrid(changed, NET_TEX_INDEX, NET_LAYER))
    } else {
        None
    }
}

/// `m` is a copy of `g` after the fixed number of random changes.
pub open spec fn is_changed_copy(g: Heights, m: Heights) -> bool {
    is_changed(g, m, g.len() as int, NET_RANDOM_CHANGES as nat)
}

/// The candidate that a changed grid gives: its net, and none where no
/// column of the grid is more than 1 high.
pub open spec fn candidate_of(m: Heights) -> Option<Squares> {
    if highest(m) > 1 {
        Some(projection(m, NET_TEX_INDEX, NET_LAYER))
    } else {
        None
    }
}

/// The squares of a candidate, where there is one.
pub open spec fn candidate_squares(out: Option<Net>) -> Option<Squares> {
    match out {
        Some(net) => Some(net@),
        None => None,
    }
}

/// The changed grid `m` gives no decoy: none of its columns is more than 1
/// high, or its net is equivalent to the correct net or to a net placed
/// before.
pub open spec fn is_rejected(m: Heights, correct: Squares, placed: Seq<Net>) -> bool {
    highest(m) <= 1 || !is_usable(projection(m, NET_TEX_INDEX, NET_LAYER), correct, placed)
}

/// Each of `tries` is a changed copy of `g` that gives no decoy.
pub open spec fn all_rejected(g: Heights, tries: Seq<Heights>, correct: Squares, placed: Seq<Net>) -> bool {
    forall|i: int|
        0 <= i < tries.len() ==> is_changed_copy(g, #[trigger] tries[i]) && is_rejected(
            tries[i],
            correct,
            placed,
        )
}

/// The candidate that one changed copy of `cg` gives: the copy's net, and
/// none where the copy has no column more than 1 high. Which copy it is, is
/// left to chance.
pub fn gen_candidate(cg: &ColumnGrid) -> (out: Option<Net>)
    requires
        cg.wf(),
        cg.sidelen > 0,
    ensures
        exists|m: Heights| #[trigger] is_changed_copy(cg@, m) && candidate_squares(out) == candidate_of(m),
        out matches Some(net) ==> is_decoy_of(net@, cg@) && net.spec_layer() == NET_LAYER,
{
    let mut c = cg.clone();
    c.random_changes(NET_RANDOM_CHANGES);
    let out = candidate_net(&c);
    assert(is_changed_copy(cg@, c@));
    out
}

/// A decoy of `cg` that may join a round next to `correct` and the nets in
/// `placed`: the candidate of the first of at most `max_attempts` changed
/// copies of `cg` that gives a usable one, and none where every one of
/// `max_attempts` copies was rejected.
pub fn gen_decoy(cg: &ColumnGrid, correct: &Net, placed: &Vec<Net>, max_attempts: u32) -> (out: Option<Net>)
    requires
        cg.wf(),
        cg.sidelen > 0,
        correct@.len() == cg.sidelen,
        forall|k: int| 0 <= k < placed.len() ==> (#[trigger] placed[k])@.len() == cg.sidelen,
    ensures
        match out {
            Some(net) => {
                &&& max_attempts > 0
                &&& is_decoy_of(net@, cg@)
                &&& is_square_net(net@, cg.sidelen as int)
                &&& is_usable(net@, correct@, placed@)
            },
            None => exists|tries: Seq<Heights>|
                tries.len() == max_attempts && #[trigger] all_rejected(
                    cg@,
                    tries,
                    correct@,
                    placed@,
                ),
        },
{
    let mut attempts: u32 = 0;
    let ghost mut tries: Seq<Heights> = Seq::empty();
    while attempts < max_attempts
        invariant
            cg.wf(),
            cg.sidelen > 0,
            correct@.len() == cg.sidelen,
            forall|k: int| 0 <= k < placed.len() ==> (#[trigger] placed[k])@.len() == cg.sidelen,
            attempts <= max_attempts,
            tries.len() == attempts,
            all_rejected(cg@, tries, correct@, placed@),
        decreases max_attempts - attempts,
    {
        let candidate = gen_candidate(cg);
        let ghost m = choose|m: Heights| #[trigger]
            is_changed_copy(cg@, m) && candidate_squares(candidate) == candidate_of(m);
        match candidate {
            Some(net) => {
                proof {
                    lemma_decoy_is_square(net@, cg@, cg.sidelen as int);
                }
                if is_usable_net(&net, correct, placed) {
                    return Some(net);
                }
            },
            None => {},
        }
        proof {
            assert(is_rejected(m, correct@, placed@));
            tries = tries.push(m);
        }
        attempts += 1;
    }
    None
}

/// A decoy of a square grid is a square net of the same side.
pub proof fn lemma_decoy_is_square(net: Squares, g: Heights, n: int)
    requires
        is_square(g, n),
        is_decoy_of(net, g),
    ensures
        is_square_net(net, n),
{
    let m = choose|m: Heights|
        is_changed(g, m, g.len() as int, NET_RANDOM_CHANGES as nat) && highest(m) > 1
            && net == #[trigger] projection(m, NET_TEX_INDEX, NET_LAYER);
    lemma_changed_is_square(g, m, n, NET_RANDOM_CHANGES as nat);
    lemma_projection_is_square(m, NET_TEX_INDEX, NET_LAYER);
}

/// A round of `count` nets for the grid `cg`: the grid's own net at a place
/// chosen at random, and a decoy at every other place, each found in at most
/// `max_attempts` tries. A round without nets, and decoys of a grid without
/// columns, are configuration errors; where a place finds no decoy in
/// `max_attempts` tries, the tries are exhausted.
pub fn gen_next_nets(cg: &ColumnGrid, count: usize, max_attempts: u32) -> (out: Result<
    Round,
    GenerationError,
>)
    requires
        cg.wf(),
    ensures
        match out {
            Ok(round) => {
                &&& round.wf()
                &&& round.nets.len() == count
                &&& round.source_grid@ == cg@
                &&& round.source_grid.sidelen == cg.sidelen
                &&& (count == 1 || (cg.sidelen > 0 && max_attempts > 0))
            },
            Err(GenerationError::Configuration) => count == 0 || (count >= 2 && cg.sidelen == 0),
            Err(GenerationError::Exhausted) => count >= 2 && cg.sidelen > 0 && decoys_exhausted(
                cg@,
                max_attempts,
            ),
        },
        count == 1 ==> out is Ok,
{
    if count == 0 || (count >= 2 && cg.sidelen == 0) {
        return Err(GenerationError::Configuration);
    }
    let next_correct = random_below(count as u64) as usize;
    let correct_net = Net::from_columngrid(cg, NET_TEX_INDEX, NET_LAYER);
    proof {
        lemma_projection_is_square(cg@, NET_TEX_INDEX, NET_LAYER);
    }
    let mut next_nets: Vec<Net> = Vec::new();
    let mut i: usize = 0;
    while i < count
        invariant
            cg.wf(),
            count == 1 || cg.sidelen > 0,
            i <= count,
            next_correct < count,
            next_nets.len() == i,
            i > 0 && i != 1 ==> max_attempts > 0,
            i == 1 && next_correct != 0 ==> max_attempts > 0,
            correct_net@ == projection(cg@, NET_TEX_INDEX, NET_LAYER),
            is_square_net(correct_net@, cg.sidelen as int),
            forall|k: int| 0 <= k < i ==> is_square_net((#[trigger] next_nets[k])@, cg.sidelen as int),
            next_correct < i ==> next_nets[next_correct as int]@ == correct_net@,
            forall|k: int| 0 <= k < i && k != next_correct ==> is_decoy_of(
                (#[trigger] next_nets[k])@,
                cg@,
            ),
            forall|k: int| 0 <= k < i && k != next_correct ==> !equivalent(
                (#[trigger] next_nets[k])@,
                correct_net@,
            ),
            pairwise_distinct(next_nets@),
        decreases count - i,
    {
        let ghost before = next_nets@;
        if i == next_correct {
            let n = Net::from_columngrid(cg, NET_TEX_INDEX, NET_LAYER);
            proof {
                assert forall|k: int| 0 <= k < i implies !equivalent(before[k]@, n@) && !equivalent(
                    n@,
                    before[k]@,
                ) by {
                    lemma_equivalent_symmetric(before[k]@, n@, cg.sidelen as int);
                }
            }
            next_nets.push(n);
        } else {
            match gen_decoy(cg, &correct_net, &next_nets, max_attempts) {
                Some(n) => {
                    proof {
                        assert forall|k: int| 0 <= k < i implies !equivalent(before[k]@, n@)
                            && !equivalent(n@, before[k]@) by {
                            lemma_equivalent_symmetric(before[k]@, n@, cg.sidelen as int);
                        }
                    }
                    next_nets.push(n);
                },
                None => {
                    proof {
                        let tries = choose|tries: Seq<Heights>|
                            tries.len() == max_attempts && #[trigger] all_rejected(
                                cg@,
                                tries,
                                correct_net@,
                                before,
                            );
                        assert(all_rejected(
                            cg@,
                            tries,
                            projection(cg@, NET_TEX_INDEX, NET_LAYER),
                            before,
                        ));
                    }
                    return Err(GenerationError::Exhausted);
                },
            }
        }
        proof {
            assert forall|a: int, b: int|
                0 <= a < next_nets.len() && 0 <= b < next_nets.len() && a != b implies !equivalent(
                #[trigger] next_nets[a]@,
                #[trigger] next_nets[b]@,
            ) by {
                if a < i && b < i {
                    assert(next_nets[a] == before[a]);
                    assert(next_nets[b] == before[b]);
                } else if a < i {
                    assert(next_nets[a] == before[a]);
                } else {
                    assert(next_nets[b] == before[b]);
                }
            }
        }
        i += 1;
    }
    let source_grid = cg.clone();
    Ok(Round { nets: next_nets, correct_index: next_correct, source_grid })
}

/// Where a session stands in the cycle of one round. The numbers count the
/// frames a phase has left; the flag of `Static` says that an answer has just
/// been given.
#[derive(Clone, Copy, Debug, PartialEq, Eq, Structural)]
pub enum AnimState {
    /// Waiting for an answer.
    Static(bool),
    SlidingOut(u32),
    SlidingIn(u32),
    /// The short pause between two rounds.
    Between(u32),
}

/// Whether a mouse button went down or came up.
#[derive(Clone, Copy, Debug, PartialEq, Eq, Structural)]
pub enum ElementState {
    Pressed,
    Released,
}

/// Which mouse button an event is about.
#[derive(Clone, Copy, Debug, PartialEq, Eq, Structural)]
pub enum MouseButton {
    Left,
    Right,
    Other,
}

/// How an answer button is to be shown.
#[derive(Clone, Copy, Debug, PartialEq, Eq, Structural)]
pub enum ButtonLook {
    Idle,
    Hovered,
    Pressed,
}

/// What one frame of a session asks of the presentation around it.
#[derive(Clone, Copy, Debug)]
pub struct FrameEvents {
    /// The pointer has moved onto an answer button.
    pub hover_sound: bool,
    /// The countdown ran out, and a wrong answer was recorded for it.
    pub timed_out: bool,
    /// The answer button that was clicked, and recorded as an answer.
    pub clicked: Option<usize>,
    /// A new round has replaced the old one.
    pub new_round: bool,
}

/// The events of a frame that asks nothing of the presentation.
pub open spec fn no_events() -> FrameEvents {
    FrameEvents { hover_sound: false, timed_out: false, clicked: None, new_round: false }
}

/// The time budget after a round: a right answer leaves a fixed share of the
/// old budget, rounded down to a whole unit, and anything else restores the
/// default.
pub open spec fn next_budget(budget: u64, was_correct: bool) -> int {
    if was_correct {
        budget * TIMER_REDUCTION_PERCENT / 100
    } else {
        TIMER_DEFAULT_MAX as int
    }
}

/// The last of the first `n` buttons that the pointer is on.
pub open spec fn last_hit(hits: Seq<bool>, n: int) -> Option<usize>
    decreases n,
{
    if n <= 0 {
        None
    } else if hits[n - 1] {
        Some((n - 1) as usize)
    } else {
        last_hit(hits, n - 1)
    }
}

/// The phase that follows `anim` when no answer is pending.
pub open spec fn next_phase(anim: AnimState) -> AnimState {
    match anim {
        AnimState::Static(switch) => if switch {
            AnimState::SlidingOut(ANIM_SLIDE_OUT_LEN_FRAMES)
        } else {
            AnimState::Static(false)
        },
        AnimState::SlidingIn(t) => if t != 0 {
            AnimState::SlidingIn((t - 1) as u32)
        } else {
            AnimState::Static(false)
        },
        AnimState::SlidingOut(t) => if t != 0 {
            AnimState::SlidingOut((t - 1) as u32)
        } else {
            AnimState::Between(ANIM_BETWEEN_SLIDES_FRAMES)
        },
        AnimState::Between(t) => if t != 0 {
            AnimState::Between((t - 1) as u32)
        } else {
            AnimState::SlidingIn(ANIM_SLIDE_IN_LEN_FRAMES)
        },
    }
}

/// The time budget that follows `budget`.
pub fn next_timer_max(budget: u64, was_correct: bool) -> (next: u64)
    ensures
        next == next_budget(budget, was_correct),
        next <= budget || next == TIMER_DEFAULT_MAX,
        was_correct ==> next <= budget,
        was_correct && budget > 0 ==> next < budget,
        !was_correct ==> next == TIMER_DEFAULT_MAX,
{
    if was_correct {
        let percent: u128 = TIMER_REDUCTION_PERCENT as u128;
        assert(percent == 99);
        let wide: u128 = (budget as u128) * percent / 100;
        assert(budget * TIMER_REDUCTION_PERCENT == budget * 99);
        wide as u64
    } else {
        TIMER_DEFAULT_MAX
    }
}

/// How an answer button is shown during a frame in which the session waits
/// for an answer: all idle once an answer was clicked; else the one under the
/// pointer stands out, more so while the button of the mouse is held.
pub fn button_look(hit: bool, held: bool, answered: bool) -> (look: ButtonLook)
    ensures
        look == if answered || !hit {
            ButtonLook::Idle
        } else if held {
            ButtonLook::Pressed
        } else {
            ButtonLook::Hovered
        },
{
    if answered || !hit {
        ButtonLook::Idle
    } else if held {
        ButtonLook::Pressed
    } else {
        ButtonLook::Hovered
    }
}

/// A session of the game: the round being played, the phase of its
/// presentation, the countdown, the streak, and what is known of the mouse.
#[derive(Debug)]
pub struct GameState {
    pub animstate: AnimState,
    pub round: Round,
    /// Time left in this round, in timer units.
    pub timer: u64,
    /// Time budget of this round, in timer units.
    pub timer_max: u64,
    /// Right answers in a row.
    pub counter: u32,
    pub best_counter: u32,
    pub mouse_is_on_button: Option<usize>,
    pub mouse_was_on_button: Option<usize>,
    /// Whether the left and the right button of the mouse are held.
    pub mouse_clicked: (bool, bool),
    pub last_mouse_clicked: (bool, bool),
    pub last_answer_was_correct: bool,
    /// Tries allowed for each grid and each decoy of a new round.
    pub max_attempts: u32,
}

impl GameState {
    /// The session holds a fair round of the configured size, and its
    /// numbers are in range.
    pub open spec fn wf(&self) -> bool {
        &&& self.round.wf()
        &&& self.round.nets.len() == NET_COUNT
        &&& self.round.source_grid.sidelen == COLUMN_GRID_SIDELEN
        &&& self.timer <= self.timer_max <= TIMER_DEFAULT_MAX
        &&& self.counter <= self.best_counter
        &&& match self.animstate {
            AnimState::Static(_) => true,
            AnimState::SlidingOut(t) => t <= ANIM_SLIDE_OUT_LEN_FRAMES,
            AnimState::SlidingIn(t) => t <= ANIM_SLIDE_IN_LEN_FRAMES,
            AnimState::Between(t) => t <= ANIM_BETWEEN_SLIDES_FRAMES,
        }
    }

    /// The session after a right answer.
    pub open spec fn after_correct(self) -> GameState {
        GameState {
            counter: (self.counter + 1) as u32,
            best_counter: if self.counter + 1 > self.best_counter {
                (self.counter + 1) as u32
            } else {
                self.best_counter
            },
            last_answer_was_correct: true,
            ..self
        }
    }

    /// The session after a wrong answer.
    pub open spec fn after_incorrect(self) -> GameState {
        GameState { counter: 0, last_answer_was_correct: false, ..self }
    }

    /// The session after the answer `ans_index`.
    pub open spec fn after_answer(self, ans_index: usize) -> GameState {
        let judged = if ans_index == self.round.correct_index {
            self.after_correct()
        } else {
            self.after_incorrect()
        };
        GameState { animstate: AnimState::Static(true), ..judged }
    }

    /// The button clicked in a frame with the pointer as `hits` says: the
    /// last button under the pointer, if the left button of the mouse has
    /// just gone down.
    pub open spec fn clicked_button(self, hits: Seq<bool>) -> Option<usize> {
        if self.mouse_clicked.0 && !self.last_mouse_clicked.0 {
            last_hit(hits, hits.len() as int)
        } else {
            None
        }
    }

    /// An answer has been given and the session has not yet left the waiting
    /// phase for it.
    pub open spec fn answer_pending(self) -> bool {
        self.animstate == AnimState::Static(true)
    }

    /// The countdown runs out in this frame of waiting: no answer is pending,
    /// and the frame leaves no more than the threshold.
    pub open spec fn times_out(self) -> bool {
        !self.answer_pending() && self.timer_after_frame() <= TIMER_TIMEOUT
    }

    /// The click that a frame of waiting records as the answer of the round:
    /// the clicked button, unless an answer is pending or the countdown runs
    /// out in this frame.
    pub open spec fn recorded_click(self, hits: Seq<bool>) -> Option<usize> {
        if self.answer_pending() || self.times_out() {
            None
        } else {
            self.clicked_button(hits)
        }
    }

    /// Time left after one more frame of waiting.
    pub open spec fn timer_after_frame(self) -> u64 {
        if self.timer >= TIMER_UNITS_PER_FRAME {
            (self.timer - TIMER_UNITS_PER_FRAME) as u64
        } else {
            0
        }
    }

    /// The session after one frame of waiting for an answer. The countdown
    /// runs, and the round is resolved at most once: by the end of the
    /// countdown, which counts as a wrong answer, or else by a click; a round
    /// whose answer is pending is not resolved again.
    pub open spec fn after_static_frame(self, hits: Seq<bool>) -> GameState {
        let on_button = last_hit(hits, hits.len() as int);
        let ticked = GameState {
            mouse_is_on_button: on_button,
            mouse_was_on_button: on_button,
            timer: self.timer_after_frame(),
            ..self
        };
        let resolved = if self.times_out() {
            GameState { animstate: AnimState::Static(true), ..ticked.after_incorrect() }
        } else {
            match self.recorded_click(hits) {
                Some(i) => ticked.after_answer(i),
                None => ticked,
            }
        };
        GameState { animstate: next_phase(resolved.animstate), ..resolved }
    }

    /// What one frame of waiting for an answer asks of the presentation.
    pub open spec fn static_frame_events(self, hits: Seq<bool>) -> FrameEvents {
        let on_button = last_hit(hits, hits.len() as int);
        FrameEvents {
            hover_sound: on_button != self.mouse_was_on_button && on_button is Some,
            timed_out: self.times_out(),
            clicked: self.recorded_click(hits),
            new_round: false,
        }
    }

    /// A new session: a first round, about to slide in, with the default
    /// time budget and no streak.
    pub fn new(max_attempts: u32) -> (out: Result<Self, GenerationError>)
        ensures
            match out {
                Ok(state) => {
                    &&& state.wf()
                    &&& max_attempts > 0
                    &&& state.animstate == AnimState::SlidingIn(ANIM_SLIDE_IN_LEN_FRAMES)
                    &&& state.timer == TIMER_DEFAULT_MAX
                    &&& state.timer_max == TIMER_DEFAULT_MAX
                    &&& state.counter == 0
                    &&& state.best_counter == 0
                    &&& state.mouse_is_on_button is None
                    &&& state.mouse_was_on_button is None
                    &&& state.mouse_clicked == (false, false)
                    &&& state.last_mouse_clicked == (false, false)
                    &&& !state.last_answer_was_correct
                    &&& state.max_attempts == max_attempts
                },
                Err(e) => e == GenerationError::Exhausted && round_exhausted(max_attempts),
            },
            max_attempts == 0 ==> out is Err,
    {
        let round = match gen_round(max_attempts) {
            Ok(round) => round,
            Err(e) => {
                return Err(e);
            },
        };
        Ok(
            Self {
                animstate: AnimState::SlidingIn(ANIM_SLIDE_IN_LEN_FRAMES),
                round,
                timer: TIMER_DEFAULT_MAX,
                timer_max: TIMER_DEFAULT_MAX,
                counter: 0,
                best_counter: 0,
                mouse_is_on_button: None,
                mouse_was_on_button: None,
                mouse_clicked: (false, false),
                last_mouse_clicked: (false, false),
                last_answer_was_correct: false,
                max_attempts,
            },
        )
    }

    /// Records a right answer: the streak grows, and the best streak with it.
    pub fn answer_correct(&mut self)
        requires
            old(self).counter < u32::MAX,
        ensures
            *final(self) == old(self).after_correct(),
            old(self).wf() ==> final(self).wf(),
    {
        self.counter += 1;
        self.last_answer_was_correct = true;
        if self.counter > self.best_counter {
            self.best_counter = self.counter;
        }
    }

    /// Records a wrong answer: the streak is lost.
    pub fn answer_incorrect(&mut self)
        ensures
            *final(self) == old(self).after_incorrect(),
            old(self).wf() ==> final(self).wf(),
    {
        self.last_answer_was_correct = false;
        self.counter = 0;
    }

    /// Records the answer `ans_index`, right if it is the place of the
    /// correct net and wrong otherwise.
    pub fn process_answer(&mut self, ans_index: usize)
        requires
            ans_index == old(self).round.correct_index ==> old(self).counter < u32::MAX,
        ensures
            *final(self) == old(self).after_answer(ans_index),
            old(self).wf() ==> final(self).wf(),
    {
        if ans_index == self.round.correct_index {
            self.answer_correct();
        } else {
            self.answer_incorrect();
        }
        self.animstate = AnimState::Static(true);
    }

    /// Advances the session by one frame. `hits` says for each answer button
    /// whether the pointer is on it.
    ///
    /// While the session waits for an answer the countdown runs, and the end
    /// of the countdown, or else a click, is recorded as the one answer of
    /// the round; the slides count their frames down; the first frame of the pause between two rounds
    /// sets the time budget by the last answer and brings a new round. Where
    /// no new round can be generated the session is left as it was.
    pub fn update(&mut self, hits: &Vec<bool>) -> (out: Result<FrameEvents, GenerationError>)
        requires
            old(self).animstate is Static && old(self).recorded_click(hits@) == Some(
                old(self).round.correct_index,
            ) ==> old(self).counter < u32::MAX,
        ensures
            match out {
                Ok(events) => match old(self).animstate {
                    AnimState::Static(_) => {
                        &&& *final(self) == old(self).after_static_frame(hits@)
                        &&& events == old(self).static_frame_events(hits@)
                    },
                    AnimState::Between(t) if t == ANIM_BETWEEN_SLIDES_FRAMES => {
                        &&& *final(self) == (GameState {
                            animstate: next_phase(old(self).animstate),
                            round: final(self).round,
                            timer: final(self).timer_max,
                            timer_max: next_budget(
                                old(self).timer_max,
                                old(self).last_answer_was_correct,
                            ) as u64,
                            ..*old(self)
                        })
                        &&& final(self).round.wf()
                        &&& final(self).round.nets.len() == NET_COUNT
                        &&& final(self).round.source_grid.sidelen == COLUMN_GRID_SIDELEN
                        &&& is_playable(final(self).round.source_grid@)
                        &&& old(self).max_attempts > 0
                        &&& events == (FrameEvents { new_round: true, ..no_events() })
                    },
                    _ => {
                        &&& *final(self) == (GameState {
                            animstate: next_phase(old(self).animstate),
                            ..*old(self)
                        })
                        &&& events == no_events()
                    },
                },
                Err(e) => {
                    &&& e == GenerationError::Exhausted
                    &&& round_exhausted(old(self).max_attempts)
                    &&& old(self).animstate == AnimState::Between(ANIM_BETWEEN_SLIDES_FRAMES)
                    &&& *final(self) == *old(self)
                },
            },
            old(self).animstate == AnimState::Between(ANIM_BETWEEN_SLIDES_FRAMES) && old(
                self,
            ).max_attempts == 0 ==> out is Err,
            out is Ok && old(self).wf() ==> final(self).wf(),
    {
        let mut events = FrameEvents {
            hover_sound: false,
            timed_out: false,
            clicked: None,
            new_round: false,
        };
        match self.animstate {
            AnimState::Static(switch) => {
                let mut should_switch = switch;
                let on_button = find_last_hit(hits);
                events.clicked = self.find_recorded_click(hits);
                events.hover_sound = !same_button(on_button, self.mouse_was_on_button)
                    && on_button.is_some();
                self.mouse_is_on_button = on_button;
                self.mouse_was_on_button = on_button;

                if self.timer >= TIMER_UNITS_PER_FRAME {
                    self.timer = self.timer - TIMER_UNITS_PER_FRAME;
                } else {
                    self.timer = 0;
                }
                if !switch && self.timer <= TIMER_TIMEOUT {
                    self.answer_incorrect();
                    self.animstate = AnimState::Static(true);
                    events.timed_out = true;
                    should_switch = true;
                } else {
                    match events.clicked {
                        Some(i) => {
                            self.process_answer(i);
                            should_switch = true;
                        },
                        None => {},
                    }
                }
                if should_switch {
                    self.animstate = AnimState::SlidingOut(ANIM_SLIDE_OUT_LEN_FRAMES);
                }
            },
            AnimState::SlidingIn(t) => {
                if t != 0 {
                    self.animstate = AnimState::SlidingIn(t - 1);
                } else {
                    self.animstate = AnimState::Static(false);
                }
            },
            AnimState::SlidingOut(t) => {
                if t != 0 {
                    self.animstate = AnimState::SlidingOut(t - 1);
                } else {
                    self.animstate = AnimState::Between(ANIM_BETWEEN_SLIDES_FRAMES);
                }
            },
            AnimState::Between(t) => {
                if t == ANIM_BETWEEN_SLIDES_FRAMES {
                    let round = match gen_round(self.max_attempts) {
                        Ok(round) => round,
                        Err(e) => {
                            return Err(e);
                        },
                    };
                    self.timer_max = next_timer_max(self.timer_max, self.last_answer_was_correct);
                    self.timer = self.timer_max;
                    self.round = round;
                    events.new_round = true;
                }
                if t != 0 {
                    self.animstate = AnimState::Between(t - 1);
                } else {
                    self.animstate = AnimState::SlidingIn(ANIM_SLIDE_IN_LEN_FRAMES);
                }
            },
        }
        Ok(events)
    }

    /// The click that a frame of waiting with the pointer as `hits` says would
    /// record as the answer of the round.
    pub fn find_recorded_click(&self, hits: &Vec<bool>) -> (click: Option<usize>)
        ensures
            click == self.recorded_click(hits@),
    {
        let pending = match self.animstate {
            AnimState::Static(switch) => switch,
            _ => false,
        };
        let left = if self.timer >= TIMER_UNITS_PER_FRAME {
            self.timer - TIMER_UNITS_PER_FRAME
        } else {
            0
        };
        if pending || left <= TIMER_TIMEOUT {
            None
        } else if self.mouse_clicked.0 && !self.last_mouse_clicked.0 {
            find_last_hit(hits)
        } else {
            None
        }
    }

    /// The places of the nets of the round that are structurally equivalent
    /// to the net at `index`, in rising order; the place `index` is among
    /// them. The nets of the round have one side length.
    pub fn matching_nets(&self, index: usize) -> (matches: Vec<usize>)
        requires
            index < self.round.nets.len(),
            forall|j: int| 0 <= j < self.round.nets.len() ==> (#[trigger] self.round.nets[j])@.len()
                == self.round.nets[index as int]@.len(),
        ensures
            forall|k: int| 0 <= k < matches.len() ==> (#[trigger] matches[k]) < self.round.nets.len()
                && equivalent(self.round.nets[index as int]@, self.round.nets[matches[k] as int]@),
            forall|k: int, l: int| 0 <= k < l < matches.len() ==> matches[k] < matches[l],
            forall|j: int| 0 <= j < self.round.nets.len() && equivalent(
                self.round.nets[index as int]@,
                (#[trigger] self.round.nets[j])@,
            ) ==> matches@.contains(j as usize),
    {
        let mut matches: Vec<usize> = Vec::new();
        let net = &self.round.nets[index];
        let mut j: usize = 0;
        while j < self.round.nets.len()
            invariant
                index < self.round.nets.len(),
                forall|j: int| 0 <= j < self.round.nets.len() ==> (#[trigger] self.round.nets[j])@.len()
                    == self.round.nets[index as int]@.len(),
                *net == self.round.nets[index as int],
                j <= self.round.nets.len(),
                forall|k: int| 0 <= k < matches.len() ==> (#[trigger] matches[k]) < j && equivalent(
                    net@,
                    self.round.nets[matches[k] as int]@,
                ),
                forall|k: int, l: int| 0 <= k < l < matches.len() ==> matches[k] < matches[l],
                forall|i: int| 0 <= i < j && equivalent(net@, (#[trigger] self.round.nets[i])@)
                    ==> matches@.contains(i as usize),
            decreases self.round.nets.len() - j,
        {
            let ghost before = matches@;
            if net.is_identical(&self.round.nets[j]) {
                matches.push(j);
                assert(matches@[before.len() as int] == j);
                assert forall|i: int| 0 <= i < j && equivalent(
                    net@,
                    (#[trigger] self.round.nets[i])@,
                ) implies matches@.contains(i as usize) by {
                    let k = choose|k: int| 0 <= k < before.len() && before[k] == i as usize;
                    assert(matches@[k] == i as usize);
                }
            }
            j += 1;
        }
        matches
    }

    /// Takes note of a mouse button going down or coming up.
    pub fn mouse_click_update(&mut self, state: ElementState, button: MouseButton)
        ensures
            *final(self) == (GameState {
                mouse_clicked: match button {
                    MouseButton::Left => (state == ElementState::Pressed, old(self).mouse_clicked.1),
                    MouseButton::Right => (old(self).mouse_clicked.0, state == ElementState::Pressed),
                    MouseButton::Other => old(self).mouse_clicked,
                },
                ..*old(self)
            }),
    {
        match button {
            MouseButton::Left => {
                self.mouse_clicked.0 = match state {
                    ElementState::Pressed => true,
                    ElementState::Released => false,
                }
            },
            MouseButton::Right => {
                self.mouse_clicked.1 = match state {
                    ElementState::Pressed => true,
                    ElementState::Released => false,
                }
            },
            MouseButton::Other => {},
        }
    }
}

/// The last button that the pointer is on.
pub fn find_last_hit(hits: &Vec<bool>) -> (found: Option<usize>)
    ensures
        found == last_hit(hits@, hits.len() as int),
{
    let mut found: Option<usize> = None;
    let mut i: usize = 0;
    while i < hits.len()
        invariant
            i <= hits.len(),
            found == last_hit(hits@, i as int),
        decreases hits.len() - i,
    {
        if hits[i] {
            found = Some(i);
        }
        i += 1;
    }
    found
}

/// Whether the two are the same button, or both none.
pub fn same_button(a: Option<usize>, b: Option<usize>) -> (same: bool)
    ensures
        same == (a == b),
{
    match (a, b) {
        (Some(i), Some(j)) => i == j,
        (None, None) => true,
        _ => false,
    }
}

/// A grid that makes a puzzle and a round of the configured size for it.
pub fn gen_round(max_attempts: u32) -> (out: Result<Round, GenerationError>)
    ensures
        match out {
            Ok(round) => {
                &&& round.wf()
                &&& round.nets.len() == NET_COUNT
                &&& round.source_grid.sidelen == COLUMN_GRID_SIDELEN
                &&& is_playable(round.source_grid@)
                &&& max_attempts > 0
            },
            Err(e) => e == GenerationError::Exhausted && round_exhausted(max_attempts),
        },
        max_attempts == 0 ==> out is Err,
{
    let grid = match gen_cg(COLUMN_GRID_SIDELEN, max_attempts) {
        Ok(grid) => grid,
        Err(e) => {
            return Err(e);
        },
    };
    let out = gen_next_nets(&grid, NET_COUNT, max_attempts);
    proof {
        if out is Err {
            assert(is_drawn_grid(grid@, COLUMN_GRID_SIDELEN as int) && is_playable(grid@)
                && decoys_exhausted(grid@, max_attempts));
        }
    }
    out
}

} // verus!
