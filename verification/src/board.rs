//! The board: the registry that owns the keyed collection of riddles,
//! enforces one-bounty-per-title uniqueness, and orchestrates the escrow
//! transitions.

use vstd::prelude::*;

use crate::laws::{lemma_lookup_after_push, lemma_lookup_after_update, lemma_title_index};
use crate::riddle::{
    fresh_riddle, marked_solved, view_of, with_bounty_added, Riddle, RiddleSpec, RiddleView,
};

verus! {

/// The five ways a board operation can fail. Every failure aborts the call
/// with no observable effect, except `WrongAnswer`, whose stake is absorbed
/// into the bounty as a committed side effect.
#[derive(Clone, Copy, Debug, PartialEq, Eq)]
pub enum BoardError {
    /// The title is not a key of the registry.
    NotFound,
    /// A riddle with this title was already created.
    AlreadyExists,
    /// The operation needs a non-zero attached payment.
    PaymentRequired,
    /// The riddle is terminal: it was already solved.
    AlreadySolved,
    /// The guess did not match the answer; the stake is forfeited.
    WrongAnswer,
}

/// Whether some riddle of `s` carries the title `title`.
pub open spec fn has_title(s: Seq<RiddleSpec>, title: Seq<char>) -> bool {
    exists|i: int| 0 <= i < s.len() && s[i].title == title
}

/// The position of the riddle titled `title`; meaningful only when
/// `has_title` holds, and unique when the titles of `s` are unique.
pub open spec fn title_index(s: Seq<RiddleSpec>, title: Seq<char>) -> int {
    choose|i: int| 0 <= i < s.len() && s[i].title == title
}

/// The riddle of `s` titled `title`; meaningful only when `has_title` holds.
pub open spec fn riddle_at(s: Seq<RiddleSpec>, title: Seq<char>) -> RiddleSpec {
    s[title_index(s, title)]
}

/// No two riddles of `s` share a title: the registry's key invariant.
pub open spec fn titles_unique(s: Seq<RiddleSpec>) -> bool {
    forall|i: int, j: int|
        #![trigger s[i], s[j]]
        0 <= i < j < s.len() ==> s[i].title != s[j].title
}

/// The filter step of listing: the riddles of `s` whose solved flag equals
/// `solved`, in registry order.
pub open spec fn filter_riddles(s: Seq<RiddleSpec>, solved: bool) -> Seq<RiddleSpec>
    decreases s.len(),
{
    if s.len() == 0 {
        Seq::empty()
    } else {
        let rest = filter_riddles(s.drop_last(), solved);
        if s.last().solved == solved {
            rest.push(s.last())
        } else {
            rest
        }
    }
}

/// The board (registry): it owns every riddle, keyed by title.
pub struct Board {
    riddles: Vec<Riddle>,
}

impl View for Board {
    type V = Seq<RiddleSpec>;

    closed spec fn view(&self) -> Seq<RiddleSpec> {
        self.riddles@.map_values(|r: Riddle| r@)
    }
}

impl Default for Board {
    /// An empty board.
    fn default() -> (r: Self)
        ensures
            r@.len() == 0,
            r.wf(),
    {
        Board { riddles: Vec::new() }
    }
}

impl Board {
    /// Well-formedness: the registry's titles are unique.
    pub open spec fn wf(&self) -> bool {
        titles_unique(self@)
    }

    /// An empty board, the process-wide registry created once at system
    /// initialization.
    pub fn new() -> (r: Self)
        ensures
            r@.len() == 0,
            r.wf(),
    {
        Board { riddles: Vec::new() }
    }

    /// Rebuilds a board from persisted riddles, in storage order. Returns
    /// the board when the titles are unique — the registry's key invariant —
    /// and `None` when a title repeats.
    #[verifier::loop_isolation(false)]
    pub fn from_riddles(riddles: Vec<Riddle>) -> (r: Option<Board>)
        ensures
            match r {
                Some(b) => b.wf() && b@ == riddles@.map_values(|x: Riddle| x@),
                None => !titles_unique(riddles@.map_values(|x: Riddle| x@)),
            },
    {
        let ghost all = riddles@.map_values(|x: Riddle| x@);
        let mut rest = riddles;
        let mut board = Board::new();
        while rest.len() > 0
            invariant
                rest@.len() <= all.len(),
                board.wf(),
                board@ == all.take(all.len() - rest@.len()),
                forall|k: int|
                    0 <= k < rest@.len() ==> (#[trigger] rest@[k])@ == all[all.len() - rest@.len()
                        + k],
            decreases rest@.len(),
        {
            let ghost done = all.len() - rest@.len();
            let riddle = rest.remove(0);
            let title = riddle.get_title();
            match board.find_index(&title) {
                Some(i) => {
                    proof {
                        let i_ = i as int;
                        assert(board@[i_] == all[i_]);
                        assert(all[i_].title == all[done].title);
                        assert(!titles_unique(all)) by {
                            if titles_unique(all) {
                                assert(all[i_].title != all[done].title);
                            }
                        }
                    }
                    return None;
                },
                None => {
                    let ghost before = board@;
                    board.riddles.push(riddle);
                    proof {
                        assert(board@ =~= before.push(riddle@));
                        lemma_lookup_after_push(before, riddle@);
                        assert(board@ =~= all.take(done + 1));
                    }
                },
            }
        }
        proof {
            assert(board@ =~= all);
        }
        Some(board)
    }

    /// Hands the board's riddles back, in registry order: the seam through
    /// which the storage layer persists the registry. Consumes the board.
    pub fn into_riddles(self) -> (r: Vec<Riddle>)
        ensures
            r@.map_values(|x: Riddle| x@) == self@,
    {
        self.riddles
    }

    /// The position of the riddle titled `title`, if any.
    fn find_index(&self, title: &String) -> (r: Option<usize>)
        ensures
            match r {
                Some(i) => i < self@.len() && self@[i as int].title == title@,
                None => !has_title(self@, title@),
            },
    {
        let mut i: usize = 0;
        while i < self.riddles.len()
            invariant
                i <= self.riddles.len(),
                self@.len() == self.riddles@.len(),
                forall|j: int| 0 <= j < i ==> self@[j].title != title@,
            decreases self.riddles.len() - i,
        {
            if self.riddles[i].get_title() == *title {
                return Some(i);
            }
            i += 1;
        }
        None
    }

    /// Looks a riddle up by title and returns its secret-free view; fails
    /// with `NotFound`, and only then, when the title is absent.
    pub fn get_riddle(&self, title: String) -> (r: Result<RiddleView, BoardError>)
        requires
            self.wf(),
        ensures
            match r {
                Ok(v) => has_title(self@, title@) && v@ == view_of(riddle_at(self@, title@)),
                Err(e) => e == BoardError::NotFound && !has_title(self@, title@),
            },
    {
        match self.find_index(&title) {
            Some(i) => {
                proof {
                    lemma_title_index(self@, title@, i as int);
                }
                Ok(RiddleView::new(&self.riddles[i]))
            },
            None => Err(BoardError::NotFound),
        }
    }

    /// Whether the riddle titled `title` is solved; fails with `NotFound`,
    /// and only then, when the title is absent.
    pub fn get_riddle_solved(&self, title: String) -> (r: Result<bool, BoardError>)
        requires
            self.wf(),
        ensures
            match r {
                Ok(b) => has_title(self@, title@) && b == riddle_at(self@, title@).solved,
                Err(e) => e == BoardError::NotFound && !has_title(self@, title@),
            },
    {
        match self.find_index(&title) {
            Some(i) => {
                proof {
                    lemma_title_index(self@, title@, i as int);
                }
                Ok(self.riddles[i].is_solved())
            },
            None => Err(BoardError::NotFound),
        }
    }

    /// Lists the riddles whose solved flag equals `solved`, as pairs of
    /// title and secret-free view, in registry order: the slice
    /// `[from_index, from_index + limit)` of the filtered collection,
    /// clamped to its length. A `from_index` beyond the filtered length
    /// yields an empty sequence, not an error.
    pub fn get_riddles(&self, from_index: usize, limit: usize, solved: bool) -> (r: Vec<
        (String, RiddleView),
    >)
        requires
            from_index + limit <= usize::MAX,
        ensures
            ({
                let filtered = filter_riddles(self@, solved);
                &&& r@.len() == (if from_index >= filtered.len() {
                    0
                } else if from_index + limit <= filtered.len() {
                    limit as int
                } else {
                    filtered.len() - from_index
                })
                &&& forall|k: int|
                    0 <= k < r@.len() ==> (#[trigger] r@[k]).0@ == filtered[from_index + k].title
                        && r@[k].1@ == view_of(filtered[from_index + k])
            }),
    {
        let ghost whole = self@;
        let mut matching: Vec<usize> = Vec::new();
        let mut i: usize = 0;
        while i < self.riddles.len()
            invariant
                i <= self.riddles.len(),
                self@ == whole,
                whole.len() == self.riddles@.len(),
                matching@.len() == filter_riddles(whole.take(i as int), solved).len(),
                forall|k: int|
                    0 <= k < matching@.len() ==> (#[trigger] matching@[k]) < i && whole[
                        matching@[k] as int
                    ] == filter_riddles(whole.take(i as int), solved)[k],
            decreases self.riddles.len() - i,
        {
            proof {
                assert(whole.take(i + 1).drop_last() =~= whole.take(i as int));
                assert(whole.take(i + 1).last() == whole[i as int]);
            }
            if self.riddles[i].is_solved() == solved {
                matching.push(i);
            }
            i += 1;
        }
        proof {
            assert(whole.take(whole.len() as int) =~= whole);
        }
        let count = matching.len();
        let end = if from_index >= count {
            from_index
        } else if from_index + limit <= count {
            from_index + limit
        } else {
            count
        };
        let mut out: Vec<(String, RiddleView)> = Vec::new();
        let mut j: usize = from_index;
        while j < end
            invariant
                from_index <= j <= end,
                end <= count || end == from_index,
                count == matching@.len(),
                self@ == whole,
                whole.len() == self.riddles@.len(),
                matching@.len() == filter_riddles(whole, solved).len(),
                forall|k: int|
                    0 <= k < matching@.len() ==> (#[trigger] matching@[k]) < whole.len() && whole[
                        matching@[k] as int
                    ] == filter_riddles(whole, solved)[k],
                out@.len() == j - from_index,
                forall|k: int|
                    0 <= k < out@.len() ==> (#[trigger] out@[k]).0@ == filter_riddles(
                        whole,
                        solved,
                    )[from_index + k].title && out@[k].1@ == view_of(
                        filter_riddles(whole, solved)[from_index + k],
                    ),
            decreases end - j,
        {
            let idx = matching[j];
            out.push((self.riddles[idx].get_title(), RiddleView::new(&self.riddles[idx])));
            j += 1;
        }
        out
    }

    /// Creates a riddle whose bounty is the attached payment. Fails with
    /// `PaymentRequired` on a zero payment and with `AlreadyExists` on a
    /// title collision; either failure leaves the board unchanged.
    pub fn create_riddle(
        &mut self,
        title: String,
        text: String,
        hint: String,
        answer: String,
        payment: u128,
    ) -> (r: Result<(), BoardError>)
        requires
            old(self).wf(),
        ensures
            final(self).wf(),
            payment == 0 ==> (r matches Err(e) && e == BoardError::PaymentRequired) && final(self)@ == old(self)@,
            payment != 0 && has_title(old(self)@, title@) ==> (r matches Err(e) && e
                == BoardError::AlreadyExists) && final(self)@ == old(self)@,
            payment != 0 && !has_title(old(self)@, title@) ==> r is Ok && final(self)@ == old(self)@.push(fresh_riddle(title@, text@, hint@, answer@, payment)),
    {
        if payment == 0 {
            return Err(BoardError::PaymentRequired);
        }
        match self.find_index(&title) {
            Some(i) => {
                proof {
                    lemma_title_index(self@, title@, i as int);
                }
                Err(BoardError::AlreadyExists)
            },
            None => {
                let ghost before = self@;
                let riddle = Riddle::new(title, text, hint, answer, payment);
                let ghost riddle_model = riddle@;
                self.riddles.push(riddle);
                proof {
                    assert(self@ =~= before.push(riddle_model));
                    lemma_lookup_after_push(before, riddle_model);
                }
                Ok(())
            },
        }
    }

    /// Returns the hint against a non-zero payment, which is absorbed into
    /// the bounty. Fails with `PaymentRequired` on a zero payment and with
    /// `NotFound` on an absent title; either failure leaves the board
    /// unchanged. The solved flag is deliberately not checked: once a riddle
    /// is solved its hint is no longer a secret.
    pub fn get_riddle_hint(&mut self, title: String, payment: u128) -> (r: Result<
        String,
        BoardError,
    >)
        requires
            old(self).wf(),
            has_title(old(self)@, title@) ==> riddle_at(old(self)@, title@).bounty + payment
                <= u128::MAX,
        ensures
            final(self).wf(),
            payment == 0 ==> (r matches Err(e) && e == BoardError::PaymentRequired) && final(self)@ == old(self)@,
            payment != 0 && !has_title(old(self)@, title@) ==> (r matches Err(e) && e
                == BoardError::NotFound) && final(self)@ == old(self)@,
            payment != 0 && has_title(old(self)@, title@) ==> (r matches Ok(h) && h@ == riddle_at(
                old(self)@,
                title@,
            ).hint) && final(self)@ == old(self)@.update(
                title_index(old(self)@, title@),
                with_bounty_added(riddle_at(old(self)@, title@), payment),
            ),
    {
        if payment == 0 {
            return Err(BoardError::PaymentRequired);
        }
        match self.find_index(&title) {
            None => Err(BoardError::NotFound),
            Some(i) => {
                proof {
                    lemma_title_index(self@, title@, i as int);
                }
                let ghost before = self@;
                let hint = self.riddles[i].get_hint();
                let riddle = &mut self.riddles[i];
                riddle.increase_bounty(payment);
                proof {
                    let updated = with_bounty_added(before[i as int], payment);
                    assert(self@ =~= before.update(i as int, updated));
                    lemma_lookup_after_update(before, title@, updated);
                }
                Ok(hint)
            },
        }
    }

    /// Submits a guess with a non-zero attached stake. A correct guess marks
    /// the riddle solved and returns the full pre-transition bounty, owed to
    /// the caller; the winning stake itself is not part of the payout. A
    /// wrong guess fails with `WrongAnswer` and forfeits the stake into the
    /// bounty: the one failure that still mutates state. `PaymentRequired`,
    /// `NotFound` and `AlreadySolved` failures leave the board unchanged.
    pub fn solve_riddle(&mut self, title: String, answer: String, payment: u128) -> (r: Result<
        u128,
        BoardError,
    >)
        requires
            old(self).wf(),
            has_title(old(self)@, title@) && !riddle_at(old(self)@, title@).solved && answer@
                != riddle_at(old(self)@, title@).answer ==> riddle_at(old(self)@, title@).bounty
                + payment <= u128::MAX,
        ensures
            final(self).wf(),
            payment == 0 ==> (r matches Err(e) && e == BoardError::PaymentRequired) && final(self)@ == old(self)@,
            payment != 0 && !has_title(old(self)@, title@) ==> (r matches Err(e) && e
                == BoardError::NotFound) && final(self)@ == old(self)@,
            payment != 0 && has_title(old(self)@, title@) && riddle_at(old(self)@, title@).solved
                ==> (r matches Err(e) && e == BoardError::AlreadySolved) && final(self)@ == old(self)@,
            payment != 0 && has_title(old(self)@, title@) && !riddle_at(
                old(self)@,
                title@,
            ).solved && answer@ == riddle_at(old(self)@, title@).answer ==> (r matches Ok(payout)
                && payout == riddle_at(old(self)@, title@).bounty) && final(self)@ == old(self)@.update(
                title_index(old(self)@, title@),
                marked_solved(riddle_at(old(self)@, title@)),
            ),
            payment != 0 && has_title(old(self)@, title@) && !riddle_at(
                old(self)@,
                title@,
            ).solved && answer@ != riddle_at(old(self)@, title@).answer ==> (r matches Err(e) && e
                == BoardError::WrongAnswer) && final(self)@ == old(self)@.update(
                title_index(old(self)@, title@),
                with_bounty_added(riddle_at(old(self)@, title@), payment),
            ),
    {
        if payment == 0 {
            return Err(BoardError::PaymentRequired);
        }
        let i = match self.find_index(&title) {
            None => {
                return Err(BoardError::NotFound);
            },
            Some(i) => i,
        };
        proof {
            lemma_title_index(self@, title@, i as int);
        }
        if self.riddles[i].is_solved() {
            return Err(BoardError::AlreadySolved);
        }
        let ghost before = self@;
        let payout = self.riddles[i].get_bounty();
        if self.riddles[i].check_answer(answer) {
            let riddle = &mut self.riddles[i];
            riddle.solve();
            proof {
                let updated = marked_solved(before[i as int]);
                assert(self@ =~= before.update(i as int, updated));
                lemma_lookup_after_update(before, title@, updated);
            }
            Ok(payout)
        } else {
            let riddle = &mut self.riddles[i];
            riddle.increase_bounty(payment);
            proof {
                let updated = with_bounty_added(before[i as int], payment);
                assert(self@ =~= before.update(i as int, updated));
                lemma_lookup_after_update(before, title@, updated);
            }
            Err(BoardError::WrongAnswer)
        }
    }
}

} // verus!
