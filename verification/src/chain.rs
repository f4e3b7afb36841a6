//! The if-chain state machine: the two flags that a traversal carries
//! over a parent's children, how each child steps them, and the law that
//! within one chain at most one branch fires.

use vstd::prelude::*;

verus! {

/// How a child relates to the if-chain: it opens one (`v-if`), continues
/// one (`v-else-if`), closes one (`v-else`), is an element with none of
/// those, or is no element at all.
pub enum ChainKind {
    If,
    ElseIf,
    Else,
    Plain,
    NonElem,
}

/// One step of the chain state machine: from the flags (`inc`: a chain
/// is open; `hit`: a branch of it has fired) and the branch condition
/// `b`, to the new flags and whether this child's branch fires.
pub open spec fn chain_next(k: ChainKind, inc: bool, hit: bool, b: bool) -> (bool, bool, bool) {
    match k {
        ChainKind::If => (true, b, b),
        ChainKind::ElseIf => if !inc {
            (inc, hit, false)
        } else if hit {
            (inc, hit, false)
        } else {
            (inc, b, b)
        },
        ChainKind::Else => if !inc {
            (inc, hit, false)
        } else if hit {
            (false, hit, false)
        } else {
            (false, true, true)
        },
        ChainKind::Plain => (false, hit, false),
        ChainKind::NonElem => (inc, hit, false),
    }
}

/// The number of branches that fire when the steps `evs` (each a kind
/// and a condition) run from the given flags.
pub open spec fn fired_count(evs: Seq<(ChainKind, bool)>, inc: bool, hit: bool) -> int
    decreases evs.len(),
{
    if evs.len() == 0 {
        0
    } else {
        let st = chain_next(evs[0].0, inc, hit, evs[0].1);
        (if st.2 {
            1int
        } else {
            0int
        }) + fired_count(evs.subrange(1, evs.len() as int), st.0, st.1)
    }
}

/// Whether none of the steps opens a new chain.
pub open spec fn no_if(evs: Seq<(ChainKind, bool)>) -> bool {
    forall|i: int| 0 <= i < evs.len() ==> !(#[trigger] evs[i].0 is If)
}

/// Once a branch of a chain has fired, no later member of it fires: with
/// the `hit` flag set and no new `v-if`, nothing fires at all.
pub proof fn lemma_chain_hit_blocks(evs: Seq<(ChainKind, bool)>, inc: bool)
    requires
        no_if(evs),
    ensures
        fired_count(evs, inc, true) == 0,
    decreases evs.len(),
{
    if evs.len() > 0 {
        let st = chain_next(evs[0].0, inc, true, evs[0].1);
        assert(!st.2 && st.1);
        lemma_chain_hit_blocks(evs.subrange(1, evs.len() as int), st.0);
        assert(forall|i: int|
            0 <= i < evs.len() - 1 ==> evs.subrange(1, evs.len() as int)[i] == evs[i + 1]);
    }
}

/// With no branch fired yet and no new `v-if`, at most one branch of
/// the open chain fires.
pub proof fn lemma_chain_at_most_one_open(evs: Seq<(ChainKind, bool)>, inc: bool)
    requires
        no_if(evs),
    ensures
        fired_count(evs, inc, false) <= 1,
    decreases evs.len(),
{
    if evs.len() > 0 {
        let st = chain_next(evs[0].0, inc, false, evs[0].1);
        let rest = evs.subrange(1, evs.len() as int);
        assert(forall|i: int| 0 <= i < evs.len() - 1 ==> rest[i] == evs[i + 1]);
        if st.2 {
            assert(st.1);
            lemma_chain_hit_blocks(rest, st.0);
        } else {
            assert(!st.1 || fired_count(rest, st.0, st.1) == 0) by {
                if st.1 {
                    lemma_chain_hit_blocks(rest, st.0);
                }
            }
            if st.1 {
            } else {
                lemma_chain_at_most_one_open(rest, st.0);
            }
        }
    }
}

/// In any if-chain — the step that opens it followed by steps that open
/// no chain of their own — at most one branch's body is emitted.
pub proof fn lemma_chain_at_most_one(evs: Seq<(ChainKind, bool)>, inc: bool, hit: bool)
    requires
        evs.len() > 0,
        evs[0].0 is If,
        no_if(evs.subrange(1, evs.len() as int)),
    ensures
        fired_count(evs, inc, hit) <= 1,
{
    let st = chain_next(ChainKind::If, inc, hit, evs[0].1);
    let rest = evs.subrange(1, evs.len() as int);
    if evs[0].1 {
        assert(st.2 && st.1);
        lemma_chain_hit_blocks(rest, st.0);
    } else {
        assert(!st.2 && !st.1);
        lemma_chain_at_most_one_open(rest, st.0);
    }
}

} // verus!
