//! The riddle entity: its mathematical model, its state transitions, and the
//! secret-free view handed out on the query path.

use vstd::prelude::*;

verus! {

/// Mathematical model of a riddle: the immutable identity fields, the
/// escrowed bounty, and the terminal solved flag.
pub ghost struct RiddleSpec {
    pub title: Seq<char>,
    pub text: Seq<char>,
    pub hint: Seq<char>,
    pub answer: Seq<char>,
    pub solved: bool,
    pub bounty: u128,
}

/// Mathematical model of the secret-free projection of a riddle.
pub ghost struct RiddleViewSpec {
    pub title: Seq<char>,
    pub text: Seq<char>,
    pub solved: bool,
    pub bounty: u128,
}

/// The model of a freshly created riddle: the given fields, not yet solved.
pub open spec fn fresh_riddle(
    title: Seq<char>,
    text: Seq<char>,
    hint: Seq<char>,
    answer: Seq<char>,
    bounty: u128,
) -> RiddleSpec {
    RiddleSpec { title, text, hint, answer, solved: false, bounty }
}

/// The bounty-increase transition: `amount` is absorbed into the bounty and
/// every other field is left alone.
pub open spec fn with_bounty_added(r: RiddleSpec, amount: u128) -> RiddleSpec {
    RiddleSpec { bounty: (r.bounty + amount) as u128, ..r }
}

/// The terminal transition: the riddle is marked solved and every other field
/// is left alone.
pub open spec fn marked_solved(r: RiddleSpec) -> RiddleSpec {
    RiddleSpec { solved: true, ..r }
}

/// What a riddle looks like through the query path: the hint and the answer
/// are dropped, everything else is kept.
pub open spec fn view_of(r: RiddleSpec) -> RiddleViewSpec {
    RiddleViewSpec { title: r.title, text: r.text, solved: r.solved, bounty: r.bounty }
}

/// A single riddle: an immutable title, text, hint and answer, the
/// accumulated bounty, and the solved flag.
#[derive(Debug)]
pub struct Riddle {
    title: String,
    text: String,
    hint: String,
    answer: String,
    solved: bool,
    bounty: u128,
}

impl View for Riddle {
    type V = RiddleSpec;

    closed spec fn view(&self) -> RiddleSpec {
        RiddleSpec {
            title: self.title@,
            text: self.text@,
            hint: self.hint@,
            answer: self.answer@,
            solved: self.solved,
            bounty: self.bounty,
        }
    }
}

impl PartialEq for Riddle {
    fn eq(&self, other: &Self) -> (r: bool) {
        self.title == other.title && self.text == other.text && self.hint == other.hint
            && self.answer == other.answer && self.solved == other.solved
            && self.bounty == other.bounty
    }
}

impl vstd::std_specs::cmp::PartialEqSpecImpl for Riddle {
    open spec fn obeys_eq_spec() -> bool {
        true
    }

    open spec fn eq_spec(&self, other: &Self) -> bool {
        self@ == other@
    }
}

impl Riddle {
    /// Creates a riddle with the given fields and an unsolved flag. The
    /// caller is responsible for rejecting a zero bounty beforehand.
    pub fn new(title: String, text: String, hint: String, answer: String, bounty: u128) -> (r: Self)
        ensures
            r@ == fresh_riddle(title@, text@, hint@, answer@, bounty),
    {
        Self { title, text, hint, answer, bounty, solved: false }
    }

    pub fn get_title(&self) -> (r: String)
        ensures
            r@ == self@.title,
    {
        self.title.clone()
    }

    pub fn get_text(&self) -> (r: String)
        ensures
            r@ == self@.text,
    {
        self.text.clone()
    }

    pub fn get_hint(&self) -> (r: String)
        ensures
            r@ == self@.hint,
    {
        self.hint.clone()
    }

    /// Exact, case-sensitive comparison of a candidate against the answer.
    /// No side effect.
    pub fn check_answer(&self, answer: String) -> (r: bool)
        ensures
            r == (answer@ == self@.answer),
    {
        self.answer == answer
    }

    pub fn get_bounty(&self) -> (r: u128)
        ensures
            r == self@.bounty,
    {
        self.bounty
    }

    /// Absorbs `amount` into the bounty.
    pub fn increase_bounty(&mut self, amount: u128)
        requires
            old(self)@.bounty + amount <= u128::MAX,
        ensures
            final(self)@ == with_bounty_added(old(self)@, amount),
    {
        self.bounty = self.bounty + amount;
    }

    pub fn is_solved(&self) -> (r: bool)
        ensures
            r == self@.solved,
    {
        self.solved
    }

    /// Marks the riddle solved for good. Idempotent at the data level; the
    /// board never invokes it on an already-solved riddle.
    pub fn solve(&mut self)
        ensures
            final(self)@ == marked_solved(old(self)@),
    {
        self.solved = true;
    }

    /// Rebuilds a riddle from its persisted six-field record, solved flag
    /// and all: the seam towards the durable storage collaborator, which
    /// holds one such record per title.
    pub fn restore(
        title: String,
        text: String,
        hint: String,
        answer: String,
        bounty: u128,
        solved: bool,
    ) -> (r: Self)
        ensures
            r@ == (RiddleSpec {
                title: title@,
                text: text@,
                hint: hint@,
                answer: answer@,
                solved,
                bounty,
            }),
    {
        Self { title, text, hint, answer, bounty, solved }
    }

    /// Takes the riddle apart into its persisted six-field record. The
    /// query surface never exposes the answer; the storage layer owns the
    /// whole record and consumes the riddle to obtain it.
    pub fn into_parts(self) -> (r: (String, String, String, String, u128, bool))
        ensures
            r.0@ == self@.title,
            r.1@ == self@.text,
            r.2@ == self@.hint,
            r.3@ == self@.answer,
            r.4 == self@.bounty,
            r.5 == self@.solved,
    {
        (self.title, self.text, self.hint, self.answer, self.bounty, self.solved)
    }
}

/// The secret-free projection of a riddle, as returned on the query path.
/// It never carries the hint or the answer.
#[derive(Debug)]
pub struct RiddleView {
    pub title: String,
    pub text: String,
    pub solved: bool,
    pub bounty: u128,
}

impl View for RiddleView {
    type V = RiddleViewSpec;

    open spec fn view(&self) -> RiddleViewSpec {
        RiddleViewSpec {
            title: self.title@,
            text: self.text@,
            solved: self.solved,
            bounty: self.bounty,
        }
    }
}

impl PartialEq for RiddleView {
    fn eq(&self, other: &Self) -> (r: bool) {
        self.title == other.title && self.text == other.text && self.solved == other.solved
            && self.bounty == other.bounty
    }
}

impl vstd::std_specs::cmp::PartialEqSpecImpl for RiddleView {
    open spec fn obeys_eq_spec() -> bool {
        true
    }

    open spec fn eq_spec(&self, other: &Self) -> bool {
        self@ == other@
    }
}

impl RiddleView {
    /// Projects a riddle onto its public fields.
    pub fn new(riddle: &Riddle) -> (r: Self)
        ensures
            r@ == view_of(riddle@),
    {
        Self {
            title: riddle.title.clone(),
            text: riddle.text.clone(),
            solved: riddle.solved,
            bounty: riddle.bounty,
        }
    }
}

} // verus!
