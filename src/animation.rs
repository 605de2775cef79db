//! Playback of a fully rendered animation. The player decides, one step at a
//! time, whether to draw a frame, sleep for a slice of the frame's delay, or
//! stop; the caller performs the action and reports whether cancellation was
//! requested.
use vstd::prelude::*;

verus! {

/// The longest sleep the player asks for in one step, in milliseconds, so
/// that a cancellation is seen within this time.
pub const POLL_MS: u64 = 50;

/// What the caller does for one step of the player.
#[derive(Debug, Clone, Copy, PartialEq, Eq, Structural)]
pub enum PlayAction {
    /// Move to the origin and draw the frame with this index.
    Draw(usize),
    /// Sleep for this many milliseconds.
    Sleep(u64),
    /// Stop playing and restore the terminal.
    Stop,
}

/// Where the player stands.
#[derive(Debug, Clone, Copy, PartialEq, Eq, Structural)]
pub struct PlayState {
    /// The frame being shown, or the next to draw.
    pub current: usize,
    /// Milliseconds of the current frame's delay still to sleep.
    pub remaining: u64,
    /// Whether the next step draws the current frame.
    pub pending_draw: bool,
    /// Whether playback has stopped.
    pub stopped: bool,
}

/// The state in which the next step draws frame `i`.
pub open spec fn about_to_draw(i: int) -> PlayState {
    PlayState { current: i as usize, remaining: 0, pending_draw: true, stopped: false }
}

/// The frame after `i`, wrapping to the first.
pub open spec fn next_frame(n: int, i: int) -> int {
    if i + 1 >= n {
        0
    } else {
        i + 1
    }
}

/// One step of the player over frames with the given delays: stop when
/// cancelled, when stopped, or when there is no frame; else draw the pending
/// frame, or sleep for the next slice (at most [`POLL_MS`]) of its delay, moving
/// on to the next frame, cyclically, once the delay is spent.
pub open spec fn step_spec(delays: Seq<u64>, s: PlayState, cancelled: bool) -> (PlayState, PlayAction) {
    let n = delays.len() as int;
    if s.stopped || cancelled || n == 0 {
        (PlayState { stopped: true, ..s }, PlayAction::Stop)
    } else if s.pending_draw {
        let d = delays[s.current as int];
        if d == 0 {
            (about_to_draw(next_frame(n, s.current as int)), PlayAction::Draw(s.current))
        } else {
            (
                PlayState { current: s.current, remaining: d, pending_draw: false, stopped: false },
                PlayAction::Draw(s.current),
            )
        }
    } else {
        let slice = if s.remaining <= POLL_MS {
            s.remaining
        } else {
            POLL_MS
        };
        if s.remaining == slice {
            (about_to_draw(next_frame(n, s.current as int)), PlayAction::Sleep(slice))
        } else {
            (
                PlayState {
                    current: s.current,
                    remaining: (s.remaining - slice) as u64,
                    pending_draw: false,
                    stopped: false,
                },
                PlayAction::Sleep(slice),
            )
        }
    }
}

/// The states the player can be in: a frame index in range, and a pending
/// sleep whenever no draw is pending.
pub open spec fn state_wf(delays: Seq<u64>, s: PlayState) -> bool {
    &&& delays.len() >= 1 && !s.stopped ==> s.current < delays.len()
    &&& !s.pending_draw && !s.stopped ==> s.remaining > 0
}

/// The player: the delay of each frame, in milliseconds, and where it stands.
#[derive(Debug, Clone)]
pub struct Playback {
    pub delays: Vec<u64>,
    pub state: PlayState,
}

impl Playback {
    /// The player's states stay well formed.
    pub open spec fn wf(&self) -> bool {
        state_wf(self.delays@, self.state)
    }

    /// A player about to draw the first frame.
    pub fn new(delays: Vec<u64>) -> (r: Playback)
        ensures
            r.wf(),
            r.delays@ == delays@,
            r.state == about_to_draw(0),
    {
        Playback { delays, state: PlayState { current: 0, remaining: 0, pending_draw: true, stopped: false } }
    }

    /// Takes one step, given whether cancellation has been requested.
    pub fn step(&mut self, cancelled: bool) -> (r: PlayAction)
        requires
            old(self).wf(),
        ensures
            final(self).wf(),
            final(self).delays == old(self).delays,
            (final(self).state, r) == step_spec(old(self).delays@, old(self).state, cancelled),
            cancelled ==> r == PlayAction::Stop && final(self).state.stopped,
            r matches PlayAction::Sleep(ms) ==> 0 < ms <= POLL_MS,
    {
        let n = self.delays.len();
        let s = self.state;
        if s.stopped || cancelled || n == 0 {
            self.state = PlayState { stopped: true, ..s };
            return PlayAction::Stop;
        }
        let next: usize = if s.current + 1 >= n { 0 } else { s.current + 1 };
        if s.pending_draw {
            let d = self.delays[s.current];
            if d == 0 {
                self.state = PlayState { current: next, remaining: 0, pending_draw: true, stopped: false };
            } else {
                self.state = PlayState { current: s.current, remaining: d, pending_draw: false, stopped: false };
            }
            PlayAction::Draw(s.current)
        } else {
            let slice = if s.remaining <= POLL_MS { s.remaining } else { POLL_MS };
            if s.remaining == slice {
                self.state = PlayState { current: next, remaining: 0, pending_draw: true, stopped: false };
            } else {
                self.state = PlayState {
                    current: s.current,
                    remaining: s.remaining - slice,
                    pending_draw: false,
                    stopped: false,
                };
            }
            PlayAction::Sleep(slice)
        }
    }
}

/// The state and the actions after `k` steps without cancellation.
pub open spec fn run(delays: Seq<u64>, s: PlayState, k: nat) -> (PlayState, Seq<PlayAction>)
    decreases k,
{
    if k == 0 {
        (s, Seq::empty())
    } else {
        let (s1, a) = step_spec(delays, s, false);
        let (s2, rest) = run(delays, s1, (k - 1) as nat);
        (s2, seq![a] + rest)
    }
}

/// The sleeps that spend a delay of `d` milliseconds, in slices of at most [`POLL_MS`].
pub open spec fn sleeps(d: int) -> Seq<PlayAction>
    decreases d,
{
    if d <= 0 {
        Seq::empty()
    } else if d <= POLL_MS {
        seq![PlayAction::Sleep(d as u64)]
    } else {
        seq![PlayAction::Sleep(POLL_MS)] + sleeps(d - POLL_MS)
    }
}

/// What the player does for frame `i`: draw it, then sleep for its delay.
pub open spec fn frame_actions(delays: Seq<u64>, i: int) -> Seq<PlayAction> {
    seq![PlayAction::Draw(i as usize)] + sleeps(delays[i] as int)
}

/// The total time, in milliseconds, that a sequence of actions sleeps.
pub open spec fn total_sleep(acts: Seq<PlayAction>) -> int
    decreases acts.len(),
{
    if acts.len() == 0 {
        0
    } else {
        let first = match acts[0] {
            PlayAction::Sleep(ms) => ms as int,
            _ => 0,
        };
        first + total_sleep(acts.drop_first())
    }
}

/// The actions of one whole cycle through the first `m` frames.
pub open spec fn cycle_actions(delays: Seq<u64>, m: int) -> Seq<PlayAction>
    decreases m,
{
    if m <= 0 {
        Seq::empty()
    } else {
        cycle_actions(delays, m - 1) + frame_actions(delays, m - 1)
    }
}

/// The sum of the first `m` delays.
pub open spec fn delay_sum(delays: Seq<u64>, m: int) -> int
    decreases m,
{
    if m <= 0 {
        0
    } else {
        delay_sum(delays, m - 1) + delays[m - 1]
    }
}

proof fn lemma_run_split(delays: Seq<u64>, s: PlayState, a: nat, b: nat)
    ensures
        ({
            let (s1, acts1) = run(delays, s, a);
            let (s2, acts2) = run(delays, s1, b);
            run(delays, s, a + b) == (s2, acts1 + acts2)
        }),
    decreases a,
{
    if a > 0 {
        let (s1, x) = step_spec(delays, s, false);
        lemma_run_split(delays, s1, (a - 1) as nat, b);
        let (t, acts1) = run(delays, s1, (a - 1) as nat);
        let (u, acts2) = run(delays, t, b);
        assert(seq![x] + (acts1 + acts2) == (seq![x] + acts1) + acts2);
        assert((a + b - 1) as nat == (a - 1) as nat + b);
    } else {
        let (s2, acts2) = run(delays, s, b);
        assert(Seq::<PlayAction>::empty() + acts2 == acts2);
    }
}

proof fn lemma_sleeps(delays: Seq<u64>, i: int, r: int)
    requires
        0 <= i < delays.len() <= usize::MAX,
        r >= 1,
        r <= u64::MAX,
    ensures
        run(
            delays,
            PlayState { current: i as usize, remaining: r as u64, pending_draw: false, stopped: false },
            sleeps(r).len(),
        ) == (about_to_draw(next_frame(delays.len() as int, i)), sleeps(r)),
        total_sleep(sleeps(r)) == r,
    decreases r,
{
    let s = PlayState { current: i as usize, remaining: r as u64, pending_draw: false, stopped: false };
    let done = about_to_draw(next_frame(delays.len() as int, i));
    if r <= POLL_MS {
        assert(step_spec(delays, s, false) == (done, PlayAction::Sleep(r as u64)));
        assert(sleeps(r) == seq![PlayAction::Sleep(r as u64)]);
        assert(run(delays, done, 0) == (done, Seq::<PlayAction>::empty()));
        assert(seq![PlayAction::Sleep(r as u64)] + Seq::<PlayAction>::empty() == seq![PlayAction::Sleep(r as u64)]);
        assert(sleeps(r).drop_first() =~= Seq::<PlayAction>::empty());
        assert(total_sleep(Seq::<PlayAction>::empty()) == 0);
    } else {
        let s1 = PlayState { current: i as usize, remaining: (r - POLL_MS) as u64, pending_draw: false, stopped: false };
        assert(step_spec(delays, s, false) == (s1, PlayAction::Sleep(POLL_MS)));
        lemma_sleeps(delays, i, r - POLL_MS);
        assert(sleeps(r) == seq![PlayAction::Sleep(POLL_MS)] + sleeps(r - POLL_MS));
        assert(sleeps(r).drop_first() =~= sleeps(r - POLL_MS));
        assert(sleeps(r).len() == 1 + sleeps(r - POLL_MS).len());
        assert((sleeps(r).len() - 1) as nat == sleeps(r - POLL_MS).len());
    }
}

/// The frame law: from the point of drawing frame `i`, the player draws it,
/// sleeps in slices of at most [`POLL_MS`] that add up to its delay, and is
/// then about to draw the next frame, cyclically.
pub proof fn lemma_frame_cycle(delays: Seq<u64>, i: int)
    requires
        0 <= i < delays.len(),
        delays.len() <= usize::MAX,
    ensures
        run(delays, about_to_draw(i), frame_actions(delays, i).len())
            == (about_to_draw(next_frame(delays.len() as int, i)), frame_actions(delays, i)),
        total_sleep(frame_actions(delays, i)) == delays[i],
        forall|k: int|
            0 <= k < frame_actions(delays, i).len() ==> (#[trigger] frame_actions(delays, i)[k] matches PlayAction::Sleep(
                ms,
            ) ==> 0 < ms <= POLL_MS),
{
    let d = delays[i] as int;
    let acts = frame_actions(delays, i);
    let done = about_to_draw(next_frame(delays.len() as int, i));
    assert(acts.drop_first() =~= sleeps(d));
    assert(acts[0] == PlayAction::Draw(i as usize));
    assert(total_sleep(acts) == total_sleep(sleeps(d)));
    lemma_sleep_slices(d);
    if d == 0 {
        assert(step_spec(delays, about_to_draw(i), false) == (done, PlayAction::Draw(i as usize)));
        assert(sleeps(d) == Seq::<PlayAction>::empty());
        assert(acts =~= seq![PlayAction::Draw(i as usize)]);
        assert(run(delays, done, 0) == (done, Seq::<PlayAction>::empty()));
        assert(seq![PlayAction::Draw(i as usize)] + Seq::<PlayAction>::empty() =~= acts);
        assert(total_sleep(Seq::<PlayAction>::empty()) == 0);
    } else {
        lemma_sleeps(delays, i, d);
        let s1 = PlayState { current: i as usize, remaining: d as u64, pending_draw: false, stopped: false };
        assert(step_spec(delays, about_to_draw(i), false) == (s1, PlayAction::Draw(i as usize)));
        assert((acts.len() - 1) as nat == sleeps(d).len());
    }
}

proof fn lemma_sleep_slices(d: int)
    ensures
        forall|k: int|
            0 <= k < sleeps(d).len() ==> (#[trigger] sleeps(d)[k] matches PlayAction::Sleep(ms) ==> 0 < ms <= POLL_MS),
        forall|k: int| 0 <= k < sleeps(d).len() ==> (#[trigger] sleeps(d)[k]) is Sleep,
    decreases d,
{
    if d > POLL_MS {
        lemma_sleep_slices(d - POLL_MS);
        assert forall|k: int| 0 < k < sleeps(d).len() implies sleeps(d)[k] == sleeps(d - POLL_MS)[k - 1] by {}
    }
}

proof fn lemma_total_sleep_concat(a: Seq<PlayAction>, b: Seq<PlayAction>)
    ensures
        total_sleep(a + b) == total_sleep(a) + total_sleep(b),
    decreases a.len(),
{
    if a.len() > 0 {
        lemma_total_sleep_concat(a.drop_first(), b);
        assert((a + b).drop_first() == a.drop_first() + b);
    } else {
        assert(a + b == b);
    }
}

/// The cycle law: from the start, the player draws the frames in order, each
/// followed by sleeps adding up to its delay, and after one whole cycle, which
/// sleeps for the sum of the delays, it is back at its starting state; so
/// playback repeats the same cycle until cancelled.
pub proof fn lemma_playback_cycle(delays: Seq<u64>)
    requires
        1 <= delays.len() <= usize::MAX,
    ensures
        run(delays, about_to_draw(0), cycle_actions(delays, delays.len() as int).len())
            == (about_to_draw(0), cycle_actions(delays, delays.len() as int)),
        total_sleep(cycle_actions(delays, delays.len() as int)) == delay_sum(delays, delays.len() as int),
{
    lemma_cycle_prefix(delays, delays.len() as int);
}

proof fn lemma_cycle_prefix(delays: Seq<u64>, m: int)
    requires
        1 <= delays.len() <= usize::MAX,
        0 <= m <= delays.len(),
    ensures
        run(delays, about_to_draw(0), cycle_actions(delays, m).len()) == (
            if m == delays.len() {
                about_to_draw(0)
            } else {
                about_to_draw(m)
            },
            cycle_actions(delays, m),
        ),
        total_sleep(cycle_actions(delays, m)) == delay_sum(delays, m),
    decreases m,
{
    if m > 0 {
        lemma_cycle_prefix(delays, m - 1);
        lemma_frame_cycle(delays, m - 1);
        let prefix = cycle_actions(delays, m - 1);
        let frame = frame_actions(delays, m - 1);
        lemma_run_split(delays, about_to_draw(0), prefix.len(), frame.len());
        lemma_total_sleep_concat(prefix, frame);
        assert(prefix.len() + frame.len() == (prefix + frame).len());
    } else {
        assert(cycle_actions(delays, 0) == Seq::<PlayAction>::empty());
    }
}

} // verus!
