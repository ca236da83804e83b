//! The proved laws of the escrow state machine: what creation, lookup, hint
//! payments and solving guarantee over the board's mathematical model.

use vstd::prelude::*;

use crate::board::{filter_riddles, has_title, riddle_at, title_index, titles_unique};
use crate::riddle::{marked_solved, with_bounty_added, RiddleSpec};

verus! {

/// Creation law: pushing a riddle whose title is new keeps the titles unique,
/// makes the new title present with exactly the pushed riddle under it, and
/// leaves every riddle already present unchanged under its own title. No
/// other title becomes present.
pub proof fn lemma_lookup_after_push(s: Seq<RiddleSpec>, r: RiddleSpec)
    requires
        titles_unique(s),
        !has_title(s, r.title),
    ensures
        ({
            let s2 = s.push(r);
            &&& titles_unique(s2)
            &&& has_title(s2, r.title)
            &&& riddle_at(s2, r.title) == r
            &&& forall|t: Seq<char>|
                has_title(s, t) ==> #[trigger] has_title(s2, t) && riddle_at(s2, t) == riddle_at(
                    s,
                    t,
                )
            &&& forall|t: Seq<char>|
                #[trigger] has_title(s2, t) <==> has_title(s, t) || t == r.title
        }),
{
    let s2 = s.push(r);
    let n = s.len() as int;
    assert(s2[n] == r);
    assert forall|i: int, j: int|
        #![trigger s2[i], s2[j]]
        0 <= i < j < s2.len() implies s2[i].title != s2[j].title by {
        if j < n {
            assert(s[i].title != s[j].title);
        } else {
            assert(s2[i] == s[i]);
            if s[i].title == r.title {
                assert(has_title(s, r.title));
            }
        }
    }
    lemma_title_index(s2, r.title, n);
    assert forall|t: Seq<char>| has_title(s, t) implies #[trigger] has_title(s2, t) && riddle_at(
        s2,
        t,
    ) == riddle_at(s, t) by {
        let i = title_index(s, t);
        assert(0 <= i < s.len() && s[i].title == t);
        lemma_title_index(s, t, i);
        assert(s2[i] == s[i]);
        lemma_title_index(s2, t, i);
    }
    assert forall|t: Seq<char>| #[trigger]
        has_title(s2, t) implies has_title(s, t) || t == r.title by {
        let i = title_index(s2, t);
        assert(0 <= i < s2.len() && s2[i].title == t);
        if i < n {
            assert(s[i].title == t);
            assert(has_title(s, t));
        }
    }
}

/// Write-back law: replacing the riddle under a title with one that carries
/// the same title keeps the titles unique, keeps the set of present titles,
/// puts exactly the replacement under that title, and leaves every other
/// title's riddle untouched.
pub proof fn lemma_lookup_after_update(s: Seq<RiddleSpec>, title: Seq<char>, r: RiddleSpec)
    requires
        titles_unique(s),
        has_title(s, title),
        r.title == title,
    ensures
        ({
            let s2 = s.update(title_index(s, title), r);
            &&& titles_unique(s2)
            &&& s2.len() == s.len()
            &&& has_title(s2, title)
            &&& riddle_at(s2, title) == r
            &&& forall|t: Seq<char>|
                has_title(s, t) && t != title ==> #[trigger] has_title(s2, t) && riddle_at(s2, t)
                    == riddle_at(s, t)
            &&& forall|t: Seq<char>| #[trigger] has_title(s2, t) <==> has_title(s, t)
        }),
{
    let i = title_index(s, title);
    assert(0 <= i < s.len() && s[i].title == title);
    let s2 = s.update(i, r);
    assert forall|j: int, k: int|
        #![trigger s2[j], s2[k]]
        0 <= j < k < s2.len() implies s2[j].title != s2[k].title by {
        assert(s[j].title != s[k].title);
        assert(s2[j].title == s[j].title && s2[k].title == s[k].title);
    }
    lemma_title_index(s2, title, i);
    assert forall|t: Seq<char>| has_title(s, t) && t != title implies #[trigger] has_title(s2, t)
        && riddle_at(s2, t) == riddle_at(s, t) by {
        let j = title_index(s, t);
        assert(0 <= j < s.len() && s[j].title == t);
        lemma_title_index(s, t, j);
        assert(j != i);
        assert(s2[j] == s[j]);
        lemma_title_index(s2, t, j);
    }
    assert forall|t: Seq<char>| #[trigger] has_title(s2, t) implies has_title(s, t) by {
        let j = title_index(s2, t);
        assert(0 <= j < s2.len() && s2[j].title == t);
        assert(s[j].title == t);
    }
}

/// A known position pins down lookup: under unique titles, lookup by a title
/// that stands at position `i` finds exactly the riddle at `i`.
pub proof fn lemma_title_index(s: Seq<RiddleSpec>, title: Seq<char>, i: int)
    requires
        titles_unique(s),
        0 <= i < s.len(),
        s[i].title == title,
    ensures
        has_title(s, title),
        title_index(s, title) == i,
        riddle_at(s, title) == s[i],
{
    assert(has_title(s, title));
    let j = title_index(s, title);
    assert(0 <= j < s.len() && s[j].title == title);
    if i < j {
        assert(s[i].title != s[j].title);
    } else if j < i {
        assert(s[j].title != s[i].title);
    }
}

/// Listing law: filtering a collection in which every riddle's solved flag
/// already equals the requested one returns the collection itself, in order.
pub proof fn lemma_filter_all_matching(s: Seq<RiddleSpec>, solved: bool)
    requires
        forall|i: int| 0 <= i < s.len() ==> (#[trigger] s[i]).solved == solved,
    ensures
        filter_riddles(s, solved) == s,
    decreases s.len(),
{
    if s.len() == 0 {
        assert(filter_riddles(s, solved) =~= s);
    } else {
        let prefix = s.drop_last();
        assert(forall|i: int| 0 <= i < prefix.len() ==> (#[trigger] prefix[i]).solved == solved);
        lemma_filter_all_matching(prefix, solved);
        assert(s[s.len() - 1].solved == solved);
        assert(filter_riddles(s, solved) =~= s);
    }
}

/// Monotonic bounty law: hint payments and wrong-answer stakes accumulate in
/// the bounty one after the other, and neither touches the identity fields or
/// the solved flag.
pub proof fn lemma_bounty_accumulates(r: RiddleSpec, p: u128, q: u128)
    requires
        r.bounty + p + q <= u128::MAX,
    ensures
        with_bounty_added(r, p).bounty == r.bounty + p,
        with_bounty_added(with_bounty_added(r, p), q).bounty == r.bounty + p + q,
        with_bounty_added(r, p).bounty >= r.bounty,
        with_bounty_added(r, p) == (RiddleSpec { bounty: (r.bounty + p) as u128, ..r }),
{
}

/// Exactly-once payout law: solving marks the riddle terminally solved while
/// leaving its identity and its (already disbursed) bounty field alone, a
/// second solve changes nothing, and no bounty increase ever clears the
/// solved flag.
pub proof fn lemma_solved_is_terminal(r: RiddleSpec, amount: u128)
    requires
        r.bounty + amount <= u128::MAX,
    ensures
        marked_solved(r).solved,
        marked_solved(r) == (RiddleSpec { solved: true, ..r }),
        marked_solved(marked_solved(r)) == marked_solved(r),
        r.solved ==> marked_solved(r) == r,
        with_bounty_added(r, amount).solved == r.solved,
{
}

} // verus!
