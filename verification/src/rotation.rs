//! The rotation engine: a non-empty sequence of entries shown one at a time,
//! with a countdown that a confirmation resets and whose end closes the
//! session.
//!
//! The engine decides; the host acts. Each event gives the next state and tells
//! the host what to do: nothing, publish a description to the display and the
//! clipboard, or close.

use vstd::prelude::*;
use vstd::arithmetic::div_mod::{lemma_add_mod_noop, lemma_mod_self_0, lemma_small_mod};
use crate::parser::{views, Wik, WikView};

verus! {

/// The countdown, in ticks, of an engine made without a budget of its own.
pub const DEFAULT_BUDGET: usize = 7;

/// The key value of the key that confirms: Return.
pub const CONFIRM_KEY: u32 = 0xff0d;

/// What can happen to a session.
#[derive(Debug, Clone, Copy, PartialEq, Eq, Structural)]
pub enum Event {
    /// One interval of the timer has passed.
    Tick,
    /// The user confirmed: show the next entry.
    Advance,
    /// Any other input of the user: end the session.
    Dismiss,
}

impl Event {
    /// The event that a key stands for: the confirmation key advances, any
    /// other key dismisses.
    pub fn of_key(keyval: u32) -> (event: Event)
        ensures
            event == if keyval == CONFIRM_KEY {
                Event::Advance
            } else {
                Event::Dismiss
            },
    {
        if keyval == CONFIRM_KEY {
            Event::Advance
        } else {
            Event::Dismiss
        }
    }
}

/// What the host has to do after an event.
#[derive(Debug, PartialEq, Eq)]
pub enum Action {
    /// Nothing changes on screen.
    Nothing,
    /// Show this description and copy it to the clipboard.
    Publish(String),
    /// Close the session.
    Close,
}

/// An action in contracts.
pub enum ActionView {
    Nothing,
    Publish(Seq<char>),
    Close,
}

impl View for Action {
    type V = ActionView;

    open spec fn view(&self) -> ActionView {
        match self {
            Action::Nothing => ActionView::Nothing,
            Action::Publish(text) => ActionView::Publish(text@),
            Action::Close => ActionView::Close,
        }
    }
}

/// The state of a session in contracts.
pub struct RotationView {
    pub sequence: Seq<WikView>,
    pub cursor: nat,
    pub ticks_remaining: nat,
    pub budget: nat,
    pub expired: bool,
}

impl RotationView {
    /// The state is valid: there is an entry under the cursor, and the
    /// countdown is within the budget.
    pub open spec fn wf(self) -> bool {
        &&& self.sequence.len() > 0
        &&& self.cursor < self.sequence.len()
        &&& self.ticks_remaining <= self.budget
    }

    /// The state in which a session starts.
    pub open spec fn initial(sequence: Seq<WikView>, budget: nat) -> RotationView {
        RotationView { sequence, cursor: 0, ticks_remaining: budget, budget, expired: false }
    }

    /// The entry under the cursor.
    pub open spec fn current(self) -> WikView {
        self.sequence[self.cursor as int]
    }

    /// The state after a tick: the countdown loses one, and the session
    /// expires when none is left.
    pub open spec fn tick(self) -> RotationView {
        if self.expired {
            self
        } else if self.ticks_remaining <= 1 {
            RotationView { ticks_remaining: 0, expired: true, ..self }
        } else {
            RotationView { ticks_remaining: (self.ticks_remaining - 1) as nat, ..self }
        }
    }

    /// The state after a confirmation: the cursor moves on, cyclically, and
    /// the countdown starts again.
    pub open spec fn advance(self) -> RotationView {
        if self.expired {
            self
        } else {
            RotationView {
                cursor: (self.cursor + 1) % self.sequence.len(),
                ticks_remaining: self.budget,
                ..self
            }
        }
    }

    /// The state after a dismissal: expired, whatever the countdown.
    pub open spec fn dismiss(self) -> RotationView {
        RotationView { expired: true, ..self }
    }

    /// The state after an event.
    pub open spec fn step(self, event: Event) -> RotationView {
        match event {
            Event::Tick => self.tick(),
            Event::Advance => self.advance(),
            Event::Dismiss => self.dismiss(),
        }
    }

    /// What the host has to do when `event` arrives in this state.
    pub open spec fn action(self, event: Event) -> ActionView {
        if self.expired {
            ActionView::Nothing
        } else {
            match event {
                Event::Tick => if self.ticks_remaining <= 1 {
                    ActionView::Close
                } else {
                    ActionView::Nothing
                },
                Event::Advance => ActionView::Publish(self.advance().current().desc),
                Event::Dismiss => ActionView::Close,
            }
        }
    }

    /// The state after `n` ticks in a row.
    pub open spec fn ticks(self, n: nat) -> RotationView
        decreases n,
    {
        if n == 0 {
            self
        } else {
            self.ticks((n - 1) as nat).tick()
        }
    }

    /// The state after `n` confirmations in a row.
    pub open spec fn advances(self, n: nat) -> RotationView
        decreases n,
    {
        if n == 0 {
            self
        } else {
            self.advances((n - 1) as nat).advance()
        }
    }
}

/// A session: the entries, the cursor on the one that is shown, and the
/// countdown to its end.
#[derive(Debug)]
pub struct RotationState {
    sequence: Vec<Wik>,
    cursor: usize,
    ticks_remaining: usize,
    budget: usize,
    expired: bool,
}

impl View for RotationState {
    type V = RotationView;

    closed spec fn view(&self) -> RotationView {
        RotationView {
            sequence: views(self.sequence@),
            cursor: self.cursor as nat,
            ticks_remaining: self.ticks_remaining as nat,
            budget: self.budget as nat,
            expired: self.expired,
        }
    }
}

impl RotationState {
    #[verifier::type_invariant]
    spec fn inv(self) -> bool {
        &&& self.sequence.len() > 0
        &&& self.cursor < self.sequence.len()
        &&& self.ticks_remaining <= self.budget
    }

    /// Starts a session on `sequence`, which holds at least one entry, with
    /// the cursor on the first and a countdown of `budget` ticks.
    pub fn new(sequence: Vec<Wik>, budget: usize) -> (state: RotationState)
        requires
            sequence.len() > 0,
        ensures
            state@ == RotationView::initial(views(sequence@), budget as nat),
            state@.wf(),
    {
        RotationState { sequence, cursor: 0, ticks_remaining: budget, budget, expired: false }
    }

    /// Starts a session with the default countdown.
    pub fn with_default_budget(sequence: Vec<Wik>) -> (state: RotationState)
        requires
            sequence.len() > 0,
        ensures
            state@ == RotationView::initial(views(sequence@), DEFAULT_BUDGET as nat),
            state@.wf(),
    {
        RotationState::new(sequence, DEFAULT_BUDGET)
    }

    /// The number of entries: at least one.
    pub fn len(&self) -> (n: usize)
        ensures
            self@.wf(),
            n == self@.sequence.len(),
    {
        proof {
            use_type_invariant(self);
        }
        self.sequence.len()
    }

    /// The index of the entry that is shown.
    pub fn cursor(&self) -> (c: usize)
        ensures
            c == self@.cursor,
    {
        self.cursor
    }

    /// The ticks left before the session expires.
    pub fn ticks_remaining(&self) -> (t: usize)
        ensures
            t == self@.ticks_remaining,
    {
        self.ticks_remaining
    }

    /// The countdown that a confirmation restores.
    pub fn budget(&self) -> (t: usize)
        ensures
            t == self@.budget,
    {
        self.budget
    }

    /// Whether the session has ended.
    pub fn is_expired(&self) -> (e: bool)
        ensures
            e == self@.expired,
    {
        self.expired
    }

    /// The entry that is shown.
    pub fn current(&self) -> (entry: &Wik)
        ensures
            self@.wf(),
            entry@ == self@.current(),
    {
        proof {
            use_type_invariant(self);
        }
        &self.sequence[self.cursor]
    }

    /// What the host publishes when the session starts, and whenever it has to
    /// show the current entry anew: that entry's description.
    pub fn opening(&self) -> (action: Action)
        ensures
            self@.wf(),
            action@ == ActionView::Publish(self@.current().desc),
    {
        proof {
            use_type_invariant(self);
        }
        Action::Publish(self.sequence[self.cursor].desc.clone())
    }

    /// One interval has passed: the countdown loses one tick, and with the
    /// last one the session expires and the host is told to close.
    pub fn tick(&mut self) -> (action: Action)
        ensures
            old(self)@.wf(),
            final(self)@ == old(self)@.tick(),
            final(self)@.wf(),
            action@ == old(self)@.action(Event::Tick),
    {
        proof {
            use_type_invariant(&*self);
        }
        if self.expired {
            Action::Nothing
        } else if self.ticks_remaining <= 1 {
            self.ticks_remaining = 0;
            self.expired = true;
            Action::Close
        } else {
            self.ticks_remaining = self.ticks_remaining - 1;
            Action::Nothing
        }
    }

    /// The user confirmed: the cursor moves to the next entry, or back to the
    /// first after the last, the countdown starts again at the budget, and the
    /// host is told to publish the new entry's description.
    pub fn advance(&mut self) -> (action: Action)
        ensures
            old(self)@.wf(),
            final(self)@ == old(self)@.advance(),
            final(self)@.wf(),
            action@ == old(self)@.action(Event::Advance),
            !old(self)@.expired ==> final(self)@.ticks_remaining == old(self)@.budget,
    {
        proof {
            use_type_invariant(&*self);
        }
        if self.expired {
            return Action::Nothing;
        }
        let next: usize = if self.cursor + 1 == self.sequence.len() {
            0
        } else {
            self.cursor + 1
        };
        proof {
            let len = self.sequence.len() as int;
            if self.cursor + 1 == len {
                lemma_mod_self_0(len);
            } else {
                lemma_small_mod((self.cursor + 1) as nat, len as nat);
            }
        }
        self.cursor = next;
        self.ticks_remaining = self.budget;
        Action::Publish(self.sequence[next].desc.clone())
    }

    /// Any other input: the session expires at once and the host is told to
    /// close, unless it had expired before.
    pub fn dismiss(&mut self) -> (action: Action)
        ensures
            old(self)@.wf(),
            final(self)@ == old(self)@.dismiss(),
            final(self)@.wf(),
            action@ == old(self)@.action(Event::Dismiss),
    {
        proof {
            use_type_invariant(&*self);
        }
        if self.expired {
            Action::Nothing
        } else {
            self.expired = true;
            Action::Close
        }
    }

    /// Applies one event and says what the host has to do.
    pub fn step(&mut self, event: Event) -> (action: Action)
        ensures
            old(self)@.wf(),
            final(self)@ == old(self)@.step(event),
            final(self)@.wf(),
            action@ == old(self)@.action(event),
    {
        proof {
            use_type_invariant(&*self);
        }
        match event {
            Event::Tick => self.tick(),
            Event::Advance => self.advance(),
            Event::Dismiss => self.dismiss(),
        }
    }
}

/// Every event leaves a valid state valid, keeps the entries and the budget,
/// and never brings an expired session back.
pub proof fn lemma_step_preserves(v: RotationView, event: Event)
    requires
        v.wf(),
    ensures
        v.step(event).wf(),
        v.step(event).sequence == v.sequence,
        v.step(event).budget == v.budget,
        v.expired ==> v.step(event) == v && v.action(event) == ActionView::Nothing,
{
}

/// After a confirmation the countdown is the whole budget again, whatever it
/// was before.
pub proof fn lemma_advance_resets(v: RotationView)
    requires
        v.wf(),
        !v.expired,
    ensures
        v.advance().ticks_remaining == v.budget,
        !v.advance().expired,
{
}

/// After `n` confirmations the cursor has moved `n` places round the
/// sequence, and the session is as fresh as after one.
pub proof fn lemma_advances(v: RotationView, n: nat)
    requires
        v.wf(),
        !v.expired,
    ensures
        v.advances(n).wf(),
        !v.advances(n).expired,
        v.advances(n).sequence == v.sequence,
        v.advances(n).budget == v.budget,
        v.advances(n).cursor == (v.cursor + n) % v.sequence.len(),
        n > 0 ==> v.advances(n).ticks_remaining == v.budget,
    decreases n,
{
    let len = v.sequence.len() as int;
    let c = v.cursor as int;
    let m = n as int;
    if n == 0 {
        lemma_small_mod(v.cursor, v.sequence.len());
    } else {
        lemma_advances(v, (n - 1) as nat);
        lemma_add_mod_noop(c + m - 1, 1, len);
        if len == 1 {
            assert((c + m - 1) % len == 0 && (c + m) % len == 0 && 1int % len == 0)
                by (nonlinear_arith)
                requires
                    len == 1,
            ;
        } else {
            lemma_small_mod(1, len as nat);
        }
        assert(v.advances(n).cursor == (((c + m - 1) % len) + 1) % len);
    }
}

/// Rotation is cyclic: as many confirmations as there are entries bring the
/// cursor back to where it was, and from then on the entries shown repeat.
pub proof fn lemma_rotation_cycle(v: RotationView, k: nat)
    requires
        v.wf(),
        !v.expired,
    ensures
        v.advances(v.sequence.len()).cursor == v.cursor,
        v.advances(k + v.sequence.len()).cursor == v.advances(k).cursor,
        v.advances(k + v.sequence.len()).current() == v.advances(k).current(),
        v.action(Event::Advance) == ActionView::Publish(v.advances(1).current().desc),
{
    let len = v.sequence.len();
    let l = len as int;
    let c = v.cursor as int;
    lemma_advances(v, len);
    lemma_advances(v, k);
    lemma_advances(v, k + len);
    lemma_mod_self_0(l);
    lemma_add_mod_noop(c + k, l, l);
    lemma_add_mod_noop(c + k, 0, l);
    lemma_add_mod_noop(c, l, l);
    lemma_add_mod_noop(c, 0, l);
    lemma_small_mod(v.cursor, len);
    assert(v.advances(1) == v.advances(0).advance());
}

/// While fewer ticks have passed than the countdown held, the session is
/// active with the rest of the countdown; from then on it is expired, and
/// further ticks change nothing.
pub proof fn lemma_ticks(v: RotationView, n: nat)
    requires
        v.wf(),
        !v.expired,
        v.ticks_remaining >= 1,
    ensures
        n < v.ticks_remaining ==> v.ticks(n) == (RotationView {
            ticks_remaining: (v.ticks_remaining - n) as nat,
            ..v
        }),
        n >= v.ticks_remaining ==> v.ticks(n) == (RotationView {
            ticks_remaining: 0,
            expired: true,
            ..v
        }),
    decreases n,
{
    if n > 0 {
        lemma_ticks(v, (n - 1) as nat);
    }
}

/// Expiry: a countdown of `T` ticks, with no confirmation and no dismissal in
/// between, ends the session at the `T`-th tick and at no other: that tick
/// alone asks the host to close, and no later tick changes the state.
pub proof fn lemma_expiry(v: RotationView, n: nat)
    requires
        v.wf(),
        !v.expired,
        v.ticks_remaining >= 1,
    ensures
        v.ticks(v.ticks_remaining).expired,
        n < v.ticks_remaining ==> !v.ticks(n).expired,
        v.ticks(n).action(Event::Tick) == if n + 1 == v.ticks_remaining {
            ActionView::Close
        } else {
            ActionView::Nothing
        },
        n >= v.ticks_remaining ==> v.ticks(n).tick() == v.ticks(n),
{
    lemma_ticks(v, n);
    lemma_ticks(v, v.ticks_remaining);
}

} // verus!
