//! The aggregator: owns the transition matrix, the receiving end of the
//! observation channel and the output buffer, and decides what each event of
//! the consume loop leads to.
use vstd::prelude::*;
use tokio::sync::mpsc::{Receiver, Sender};
use crate::actor::{open_channel, Observation, State, MAX_CHANNEL_CAPACITY};
use crate::matrix::{is_stochastic, lemma_entry_le_row_sum, lemma_row_sum_nonneg, renormalized, standard_rows, ConfigError, TransitionMatrix, SCALE};
use crate::sink::{flushes, BufferedSink};
use crate::matrix::row_sum;

verus! {

/// Slots in the observation channel: one, so that every send waits for the
/// previous observation to be taken.
pub const CHANNEL_CAPACITY: usize = 1;

/// Bytes in one flushed record of the output buffer.
pub const BUFFER_CAPACITY: usize = 9;

pub open spec fn abs(v: i64) -> int {
    if v < 0 {
        -v
    } else {
        v as int
    }
}

/// `x / y` in billionths, rounded toward zero (`y` nonzero).
pub open spec fn quotient(x: i64, y: i64) -> int {
    let q = abs(x) * SCALE / abs(y);
    if (x < 0) != (y < 0) {
        -q
    } else {
        q
    }
}

/// The rate `x / y` in billionths; none where `y` is zero.
pub open spec fn rate_of(x: i64, y: i64) -> Option<int> {
    if y == 0 {
        None
    } else {
        Some(quotient(x, y))
    }
}

/// The extra weight a rate puts on its cell: its magnitude, so a negative
/// rate weighs as much as the positive one.
pub open spec fn weight(rate: int) -> nat {
    if rate < 0 {
        (-rate) as nat
    } else {
        rate as nat
    }
}

/// The one-byte record of a cell's new probability: its share of 255.
pub open spec fn record_byte(p: u64) -> u8 {
    (p as int * 255 / SCALE as int) as u8
}

fn magnitude(v: i64) -> (r: u128)
    ensures
        r == abs(v),
{
    if v < 0 {
        (0i128 - v as i128) as u128
    } else {
        v as u128
    }
}

/// The recomputation step: `x / y` as a rate in billionths, rounded toward
/// zero. A zero `y` has no finite result and gives `None`.
pub fn compute(x: i64, y: i64) -> (r: Option<i128>)
    ensures
        r is None <==> y == 0,
        r matches Some(v) ==> v == quotient(x, y),
{
    if y == 0 {
        return None;
    }
    let a = magnitude(x);
    let b = magnitude(y);
    proof {
        let (ai, bi) = (a as int, b as int);
        assert(ai * SCALE <= 0x8000_0000_0000_0000 * SCALE) by (nonlinear_arith)
            requires 0 <= ai <= 0x8000_0000_0000_0000;
        assert((ai * SCALE) / bi <= ai * SCALE) by (nonlinear_arith)
            requires ai >= 0, bi >= 1;
    }
    let q = (a * SCALE as u128 / b) as i128;
    if (x < 0) != (y < 0) {
        Some(0 - q)
    } else {
        Some(q)
    }
}

/// The weight of a rate, computed.
fn weight_of(rate: i128) -> (r: u128)
    ensures
        r == weight(rate as int),
        r <= u128::MAX - SCALE,
{
    if rate < 0 {
        ((0 - (rate + 1)) as u128) + 1
    } else {
        rate as u128
    }
}

/// A cell-level observation failure, skipped by the loop and reported.
#[derive(Debug, Clone, Copy, PartialEq, Eq, Structural)]
pub enum Recoverable {
    /// The recomputation had no finite result.
    NonFinite,
    /// The observation names a state outside the matrix.
    UnknownState,
    /// The machine has stopped; it takes no more observations.
    Stopped,
}

/// What an applied observation did.
#[derive(Debug)]
pub struct Update {
    /// The updated cell's new probability, in billionths.
    pub cell: u64,
    /// The record appended to the output buffer for it.
    pub record: u8,
    /// A full buffer's contents, where this record filled it.
    pub flushed: Option<Vec<u8>>,
}

/// Where the consume loop stands.
#[derive(Debug, Clone, Copy)]
pub enum Phase {
    /// Waiting on the channel.
    Idle,
    /// Waiting on the recomputation for an observation from this state.
    Updating([u8; 2]),
    /// The channel is closed and drained; the loop is over.
    Stopped,
}

/// What the loop hands the aggregator.
#[derive(Debug)]
pub enum Event {
    Received(Observation),
    Computed(Option<i128>),
    Closed,
}

/// What the aggregator asks the loop to do next.
#[derive(Debug)]
pub enum Action {
    /// Run the recomputation on `(x, y)` off the loop and hand back its result.
    Offload { x: i64, y: i64 },
    /// The matrix was updated; a flushed record, if any, goes downstream.
    Updated(Update),
    /// The observation was skipped; the event is to be reported.
    Skipped(Recoverable),
    /// The event does not fit the current phase and changed nothing.
    Ignored,
    /// The loop is over.
    Stop,
}

pub struct MarkovMachine {
    transition_matrix: TransitionMatrix,
    buffer: BufferedSink,
    registered: Vec<[u8; 2]>,
    phase: Phase,
    receiver: Receiver<Observation>,
}

/// A recomputation result as a number, if there is one.
pub open spec fn rate_int(rate: Option<i128>) -> Option<int> {
    match rate {
        Some(v) => Some(v as int),
        None => None,
    }
}

/// Whether `source` names a cell of a matrix with these rows and `cols` columns.
pub open spec fn in_matrix(m: Seq<Seq<u64>>, cols: nat, source: [u8; 2]) -> bool {
    source[0] < m.len() && source[1] < cols
}

impl MarkovMachine {
    pub closed spec fn matrix(&self) -> Seq<Seq<u64>> {
        self.transition_matrix@
    }

    pub closed spec fn cols(&self) -> nat {
        self.transition_matrix.spec_cols()
    }

    /// Bytes waiting in the output buffer.
    pub closed spec fn pending(&self) -> Seq<u8> {
        self.buffer@
    }

    pub closed spec fn buffer_capacity(&self) -> nat {
        self.buffer.spec_capacity()
    }

    pub closed spec fn registered(&self) -> Seq<[u8; 2]> {
        self.registered@
    }

    pub closed spec fn spec_phase(&self) -> Phase {
        self.phase
    }

    /// The receiving end of the observation channel.
    pub closed spec fn spec_receiver(&self) -> Receiver<Observation> {
        self.receiver
    }

    pub closed spec fn wf(&self) -> bool {
        &&& self.transition_matrix.wf()
        &&& self.buffer.wf()
        &&& self.buffer.spec_capacity() >= 1
        &&& (self.phase is Stopped) == self.buffer.spec_closed()
        &&& !self.buffer.spec_closed() ==> self.buffer@.len() < self.buffer.spec_capacity()
    }

    /// What `apply(source, rate)` leaves behind and returns, from `old`.
    pub open spec fn applied(
        old: &MarkovMachine,
        new: &MarkovMachine,
        source: [u8; 2],
        rate: Option<int>,
        r: Result<Update, Recoverable>,
    ) -> bool {
        &&& new.wf()
        &&& new.cols() == old.cols()
        &&& new.buffer_capacity() == old.buffer_capacity()
        &&& new.registered() == old.registered()
        &&& new.spec_receiver() == old.spec_receiver()
        &&& (r == Err::<Update, Recoverable>(Recoverable::Stopped) <==> old.spec_phase() is Stopped)
        &&& (r == Err::<Update, Recoverable>(Recoverable::UnknownState) <==> (!(
        old.spec_phase() is Stopped) && !in_matrix(old.matrix(), old.cols(), source)))
        &&& (r == Err::<Update, Recoverable>(Recoverable::NonFinite) <==> (!(
        old.spec_phase() is Stopped) && in_matrix(
            old.matrix(),
            old.cols(),
            source,
        ) && rate is None))
        &&& (r is Err ==> new.matrix() == old.matrix() && new.pending() == old.pending())
        &&& (r matches Ok(u) ==> {
            let (row, col) = (source[0] as int, source[1] as int);
            let out = flushes(old.buffer_capacity(), old.pending(), seq![u.record]);
            &&& new.matrix() == old.matrix().update(
                row,
                renormalized(old.matrix()[row], col, weight(rate.unwrap())),
            )
            &&& is_stochastic(new.matrix()[row])
            &&& u.cell == new.matrix()[row][col]
            &&& u.record == record_byte(u.cell)
            &&& new.pending() == out.1
            &&& (u.flushed is Some <==> out.0.len() == 1)
            &&& (u.flushed matches Some(f) ==> f@ == out.0[0])
        })
    }

    /// A machine over `matrix`, with an observation channel of
    /// `channel_capacity` slots and an output buffer of `buffer_capacity` bytes;
    /// returns the channel's sending half for the actors.
    pub fn with_config(matrix: TransitionMatrix, channel_capacity: usize, buffer_capacity: usize) -> (r: Result<
        (MarkovMachine, Sender<Observation>),
        ConfigError,
    >)
        requires
            matrix.wf(),
        ensures
            r == Err::<(MarkovMachine, Sender<Observation>), ConfigError>(ConfigError::ChannelCapacity)
                <==> !(0 < channel_capacity <= MAX_CHANNEL_CAPACITY),
            r == Err::<(MarkovMachine, Sender<Observation>), ConfigError>(ConfigError::BufferCapacity)
                <==> (0 < channel_capacity <= MAX_CHANNEL_CAPACITY && buffer_capacity == 0),
            r is Ok <==> (0 < channel_capacity <= MAX_CHANNEL_CAPACITY && buffer_capacity > 0),
            r matches Ok((m, _)) ==> {
                &&& m.wf()
                &&& m.matrix() == matrix@
                &&& m.cols() == matrix.spec_cols()
                &&& m.pending() == Seq::<u8>::empty()
                &&& m.buffer_capacity() == buffer_capacity
                &&& m.registered() == Seq::<[u8; 2]>::empty()
                &&& m.spec_phase() is Idle
            },
    {
        if channel_capacity == 0 || channel_capacity > MAX_CHANNEL_CAPACITY {
            return Err(ConfigError::ChannelCapacity);
        }
        if buffer_capacity == 0 {
            return Err(ConfigError::BufferCapacity);
        }
        let (sender, receiver) = open_channel(channel_capacity);
        let m = MarkovMachine {
            transition_matrix: matrix,
            buffer: BufferedSink::new(buffer_capacity),
            registered: Vec::new(),
            phase: Phase::Idle,
            receiver,
        };
        Ok((m, sender))
    }

    /// The engine's own configuration: the standard three-state matrix, a
    /// channel of one slot and a nine-byte output buffer.
    pub fn new() -> (r: (MarkovMachine, Sender<Observation>))
        ensures
            r.0.wf(),
            r.0.matrix() == standard_rows(),
            r.0.cols() == 3,
            r.0.pending() == Seq::<u8>::empty(),
            r.0.buffer_capacity() == BUFFER_CAPACITY,
            r.0.registered() == Seq::<[u8; 2]>::empty(),
            r.0.spec_phase() is Idle,
    {
        let (sender, receiver) = open_channel(CHANNEL_CAPACITY);
        let m = MarkovMachine {
            transition_matrix: TransitionMatrix::standard(),
            buffer: BufferedSink::new(BUFFER_CAPACITY),
            registered: Vec::new(),
            phase: Phase::Idle,
            receiver,
        };
        (m, sender)
    }

    /// The number of discrete states: `rows * cols` of the transition matrix.
    pub fn states(&self) -> (r: usize)
        requires
            self.wf(),
        ensures
            r == self.matrix().len() * self.cols(),
    {
        self.transition_matrix.state_count()
    }

    /// The transition matrix.
    pub fn transition_matrix(&self) -> (r: &TransitionMatrix)
        requires
            self.wf(),
        ensures
            r.wf(),
            r@ == self.matrix(),
            r.spec_cols() == self.cols(),
    {
        &self.transition_matrix
    }

    /// Number of bytes waiting in the output buffer.
    pub fn buffered(&self) -> (r: usize)
        ensures
            r == self.pending().len(),
    {
        self.buffer.len()
    }

    pub fn phase(&self) -> (r: Phase)
        ensures
            r == self.spec_phase(),
    {
        self.phase
    }

    /// Number of actors registered.
    pub fn registered_count(&self) -> (r: usize)
        ensures
            r == self.registered().len(),
    {
        self.registered.len()
    }

    /// Records the states of `states` in the machine's registration set, in
    /// order. Bookkeeping only: observations reach the machine through the
    /// channel whether or not their actor is registered.
    pub fn add_states(&mut self, states: &Vec<State>)
        ensures
            final(self).registered() == old(self).registered() + states@.map_values(
                |s: State| s.spec_state(),
            ),
            final(self).matrix() == old(self).matrix(),
            final(self).cols() == old(self).cols(),
            final(self).pending() == old(self).pending(),
            final(self).buffer_capacity() == old(self).buffer_capacity(),
            final(self).spec_phase() == old(self).spec_phase(),
            final(self).spec_receiver() == old(self).spec_receiver(),
            final(self).wf() == old(self).wf(),
    {
        let ghost start = self.registered@;
        let mut i: usize = 0;
        while i < states.len()
            invariant
                i <= states@.len(),
                self.registered@ == start + states@.take(i as int).map_values(|s: State| s.spec_state()),
                self.transition_matrix == old(self).transition_matrix,
                self.buffer == old(self).buffer,
                self.phase == old(self).phase,
                self.receiver == old(self).receiver,
            decreases states@.len() - i,
        {
            self.registered.push(states[i].state());
            proof {
                assert(states@.take(i + 1).map_values(|s: State| s.spec_state()) =~= states@.take(
                    i as int,
                ).map_values(|s: State| s.spec_state()).push(states@[i as int].spec_state()));
            }
            i = i + 1;
        }
        proof {
            assert(states@.take(states@.len() as int) =~= states@);
        }
    }

    /// The receiving end of the observation channel, for the loop to wait on.
    pub fn receiver(&mut self) -> (r: &mut Receiver<Observation>)
        ensures
            final(self).matrix() == old(self).matrix(),
            final(self).cols() == old(self).cols(),
            final(self).pending() == old(self).pending(),
            final(self).buffer_capacity() == old(self).buffer_capacity(),
            final(self).registered() == old(self).registered(),
            final(self).spec_phase() == old(self).spec_phase(),
            final(self).wf() == old(self).wf(),
            final(self).spec_receiver() == *final(r),
    {
        &mut self.receiver
    }

    /// Folds a recomputation result for an observation from `source` into the
    /// matrix: the cell at `source` gets the rate's magnitude as extra weight,
    /// its row is scaled back to `SCALE`, and the cell's new one-byte record is
    /// appended to the output buffer, which is flushed if that filled it. A
    /// stopped machine, a source outside the matrix, or a missing result is
    /// reported and leaves everything as it was.
    pub fn apply(&mut self, source: [u8; 2], rate: Option<i128>) -> (r: Result<Update, Recoverable>)
        requires
            old(self).wf(),
        ensures
            Self::applied(old(self), final(self), source, rate_int(rate), r),
            final(self).spec_phase() == old(self).spec_phase(),
    {
        if let Phase::Stopped = self.phase {
            return Err(Recoverable::Stopped);
        }
        let row = source[0] as usize;
        let col = source[1] as usize;
        if row >= self.transition_matrix.rows() || col >= self.transition_matrix.cols() {
            return Err(Recoverable::UnknownState);
        }
        let delta: u128 = match rate {
            None => {
                return Err(Recoverable::NonFinite);
            },
            Some(d) => weight_of(d),
        };
        let ghost before = self.buffer@;
        let cell = self.transition_matrix.reweight(row, col, delta);
        proof {
            let new_row = self.transition_matrix@[row as int];
            lemma_entry_le_row_sum(new_row, col as int);
            assert(is_stochastic(new_row));
        }
        let record = (cell * 255 / SCALE) as u8;
        let pushed = self.buffer.push(record);
        let flushed = self.buffer.try_flush();
        proof {
            reveal_with_fuel(flushes, 2);
            assert(seq![record].drop_first() =~= Seq::<u8>::empty());
            if before.push(record).len() == self.buffer.spec_capacity() {
                assert(seq![before.push(record)] + Seq::<Seq<u8>>::empty() =~= seq![before.push(record)]);
            }
        }
        Ok(Update { cell, record, flushed })
    }

    /// Recomputes an observation in place and applies it: as `apply` with the
    /// rate of `(obs.x, obs.y)`.
    pub fn observe(&mut self, obs: Observation) -> (r: Result<Update, Recoverable>)
        requires
            old(self).wf(),
        ensures
            Self::applied(old(self), final(self), obs.source, rate_of(obs.x, obs.y), r),
            final(self).spec_phase() == old(self).spec_phase(),
    {
        let rate = compute(obs.x, obs.y);
        self.apply(obs.source, rate)
    }

    /// One transition of the consume loop. Waiting on the channel, an
    /// observation moves the machine to updating and asks for its
    /// recomputation; the result moves it back to waiting and is applied. The
    /// channel's closing, in any phase, stops the loop and closes the output
    /// buffer; a result still outstanding then has nowhere to go. Any other
    /// event that does not fit the phase changes nothing.
    pub fn step(&mut self, event: Event) -> (r: Action)
        requires
            old(self).wf(),
        ensures
            final(self).wf(),
            final(self).cols() == old(self).cols(),
            final(self).registered() == old(self).registered(),
            final(self).buffer_capacity() == old(self).buffer_capacity(),
            final(self).spec_receiver() == old(self).spec_receiver(),
            match (old(self).spec_phase(), event) {
                (Phase::Stopped, _) => r is Stop && final(self).spec_phase() is Stopped
                    && final(self).matrix() == old(self).matrix() && final(self).pending()
                    == old(self).pending(),
                (Phase::Idle, Event::Received(o)) => r == (Action::Offload { x: o.x, y: o.y })
                    && final(self).spec_phase() == Phase::Updating(o.source)
                    && final(self).matrix() == old(self).matrix() && final(self).pending()
                    == old(self).pending(),
                (_, Event::Closed) => r is Stop && final(self).spec_phase() is Stopped
                    && final(self).matrix() == old(self).matrix() && final(self).pending()
                    == old(self).pending(),
                (Phase::Updating(s), Event::Computed(rate)) => final(self).spec_phase() is Idle
                    && match r {
                    Action::Updated(u) => Self::applied(
                        old(self),
                        final(self),
                        s,
                        rate_int(rate),
                        Ok(u),
                    ),
                    Action::Skipped(e) => Self::applied(
                        old(self),
                        final(self),
                        s,
                        rate_int(rate),
                        Err(e),
                    ),
                    _ => false,
                },
                _ => r is Ignored && final(self).spec_phase() == old(self).spec_phase()
                    && final(self).matrix() == old(self).matrix() && final(self).pending()
                    == old(self).pending(),
            },
    {
        match (self.phase, event) {
            (Phase::Stopped, _) => Action::Stop,
            (Phase::Idle, Event::Received(o)) => {
                self.phase = Phase::Updating(o.source);
                Action::Offload { x: o.x, y: o.y }
            },
            (_, Event::Closed) => {
                self.buffer.close();
                self.phase = Phase::Stopped;
                Action::Stop
            },
            (Phase::Updating(s), Event::Computed(rate)) => {
                self.phase = Phase::Idle;
                match self.apply(s, rate) {
                    Ok(u) => Action::Updated(u),
                    Err(e) => Action::Skipped(e),
                }
            },
            _ => Action::Ignored,
        }
    }
}

/// Every row of a well-formed machine's matrix has `cols` entries and sums to
/// exactly `SCALE`.
pub proof fn lemma_rows_stochastic(m: &MarkovMachine)
    requires
        m.wf(),
    ensures
        forall|i: int|
            0 <= i < m.matrix().len() ==> (#[trigger] m.matrix()[i]).len() == m.cols()
                && is_stochastic(m.matrix()[i]),
{
}

/// An observation whose `y` is zero has no finite rate: it is reported as
/// `NonFinite` (or, before that, as `Stopped` or `UnknownState` where the
/// machine has stopped or its source is outside the matrix), and the matrix and
/// the output buffer stay exactly as they were.
pub proof fn lemma_zero_divisor_changes_nothing(
    old: &MarkovMachine,
    new: &MarkovMachine,
    obs: Observation,
    r: Result<Update, Recoverable>,
)
    requires
        obs.y == 0,
        MarkovMachine::applied(old, new, obs.source, rate_of(obs.x, obs.y), r),
    ensures
        r is Err,
        new.matrix() == old.matrix(),
        new.pending() == old.pending(),
        !(old.spec_phase() is Stopped) && in_matrix(old.matrix(), old.cols(), obs.source) ==> r
            == Err::<Update, Recoverable>(Recoverable::NonFinite),
{
}

/// While the machine runs, the output buffer holds fewer bytes than its
/// capacity, so the next record always fits.
pub proof fn lemma_pending_below_capacity(m: &MarkovMachine)
    requires
        m.wf(),
    ensures
        m.buffer_capacity() >= 1,
        !(m.spec_phase() is Stopped) ==> m.pending().len() < m.buffer_capacity(),
{
}

/// Applying any observation to a well-formed machine keeps every row of the
/// matrix, the updated one included, summing to exactly `SCALE`.
pub proof fn lemma_update_keeps_rows_stochastic(
    old: &MarkovMachine,
    new: &MarkovMachine,
    source: [u8; 2],
    rate: Option<int>,
    r: Result<Update, Recoverable>,
)
    requires
        old.wf(),
        MarkovMachine::applied(old, new, source, rate, r),
    ensures
        new.matrix().len() == old.matrix().len(),
        forall|i: int| 0 <= i < new.matrix().len() ==> is_stochastic(#[trigger] new.matrix()[i]),
{
    lemma_rows_stochastic(old);
    lemma_rows_stochastic(new);
}

} // verus!
