//! Counters that are kept for observation only: no decision reads them.

use std::collections::BTreeMap;
use vstd::prelude::*;

use crate::duration::Duration;
use crate::tally::{DropTally, DropTallyView};

verus! {

/// The counter after one more event. A full counter starts again at zero.
pub open spec fn bumped(n: usize) -> usize {
    if n == usize::MAX {
        0
    } else {
        (n + 1) as usize
    }
}

/// The counter after one more event, where the event took place.
pub open spec fn bumped_if(n: usize, event: bool) -> usize {
    if event {
        bumped(n)
    } else {
        n
    }
}

/// Counts one more event. A full counter starts again at zero.
pub fn bump(n: usize) -> (r: usize)
    ensures
        r == bumped(n),
        n < usize::MAX ==> r == n + 1,
        n == usize::MAX ==> r == 0,
{
    if n == usize::MAX {
        0
    } else {
        n + 1
    }
}

/// Counters of the multi-timeframe search.
pub struct Mt {
    /// Restart-condition evaluations that reached the two difficulty checks.
    pub restart_checks: usize,
    /// Only the absolute threshold held, so the relative condition prevented
    /// the restart.
    pub abs_only: usize,
    /// Only the relative condition held, so the absolute threshold prevented
    /// the restart.
    pub rel_only: usize,
    /// Restarts triggered.
    pub num_restart: usize,
    /// Multi-timeframe blocking attempts by timeframe expansion.
    pub mt_block_by_expansion: BTreeMap<usize, usize>,
    /// Fallback: the unrolled solver produced no inductive core.
    pub fb_no_core: usize,
    /// Fallback: the short-horizon refinement failed.
    pub fb_rec_refine: usize,
    /// Fallback: the lemma is not inductive relative to the frame below.
    pub fb_gate_reject: usize,
    /// Lemmas added through the multi-timeframe path.
    pub mt_lemma_added: usize,
    /// The median blocking time after the latest blocking phase.
    pub final_median: Option<Duration>,
    /// The number of spans in the median window after that phase.
    pub median_samples: usize,
}

/// How often an expansion was tried.
pub open spec fn attempts(counts: Map<usize, usize>, expansion: usize) -> usize {
    if counts.dom().contains(expansion) {
        counts[expansion]
    } else {
        0
    }
}

impl Mt {
    /// No event yet.
    pub open spec fn is_zero(self) -> bool {
        &&& self.restart_checks == 0
        &&& self.abs_only == 0
        &&& self.rel_only == 0
        &&& self.num_restart == 0
        &&& self.mt_block_by_expansion@ == Map::<usize, usize>::empty()
        &&& self.fb_no_core == 0
        &&& self.fb_rec_refine == 0
        &&& self.fb_gate_reject == 0
        &&& self.mt_lemma_added == 0
        &&& self.final_median is None
        &&& self.median_samples == 0
    }

    /// All counters agree but those of the attempts by expansion.
    pub open spec fn same_but_attempts(self, other: Mt) -> bool {
        &&& self.restart_checks == other.restart_checks
        &&& self.abs_only == other.abs_only
        &&& self.rel_only == other.rel_only
        &&& self.num_restart == other.num_restart
        &&& self.fb_no_core == other.fb_no_core
        &&& self.fb_rec_refine == other.fb_rec_refine
        &&& self.fb_gate_reject == other.fb_gate_reject
        &&& self.mt_lemma_added == other.mt_lemma_added
        &&& self.final_median == other.final_median
        &&& self.median_samples == other.median_samples
    }

    /// Counters at zero.
    pub fn new() -> (r: Self)
        ensures
            r.is_zero(),
            r.restart_checks == 0,
            r.abs_only == 0,
            r.rel_only == 0,
            r.num_restart == 0,
            r.mt_block_by_expansion@ == Map::<usize, usize>::empty(),
            r.fb_no_core == 0,
            r.fb_rec_refine == 0,
            r.fb_gate_reject == 0,
            r.mt_lemma_added == 0,
            r.final_median is None,
            r.median_samples == 0,
    {
        Mt {
            restart_checks: 0,
            abs_only: 0,
            rel_only: 0,
            num_restart: 0,
            mt_block_by_expansion: BTreeMap::new(),
            fb_no_core: 0,
            fb_rec_refine: 0,
            fb_gate_reject: 0,
            mt_lemma_added: 0,
            final_median: None,
            median_samples: 0,
        }
    }

    /// Counts one more attempt at the given expansion.
    pub fn count_attempt(&mut self, expansion: usize)
        ensures
            final(self).mt_block_by_expansion@ == old(self).mt_block_by_expansion@.insert(
                expansion,
                bumped(attempts(old(self).mt_block_by_expansion@, expansion)),
            ),
            final(self).same_but_attempts(*old(self)),
            *final(self) == (Mt {
                mt_block_by_expansion: final(self).mt_block_by_expansion,
                ..*old(self)
            }),
            final(self).mt_block_by_expansion@.dom()
                == old(self).mt_block_by_expansion@.dom().insert(expansion),
            !old(self).mt_block_by_expansion@.contains_key(expansion)
                ==> final(self).mt_block_by_expansion@[expansion] == 1,
            old(self).mt_block_by_expansion@.contains_key(expansion)
                && old(self).mt_block_by_expansion@[expansion] < usize::MAX
                ==> final(self).mt_block_by_expansion@[expansion]
                == old(self).mt_block_by_expansion@[expansion] + 1,
            forall|e: usize|
                e != expansion && old(self).mt_block_by_expansion@.contains_key(e)
                    ==> #[trigger] final(self).mt_block_by_expansion@[e]
                    == old(self).mt_block_by_expansion@[e],
    {
        broadcast use vstd::std_specs::btree::group_btree_axioms;

        let before: usize = match self.mt_block_by_expansion.get(&expansion) {
            Some(n) => *n,
            None => 0,
        };
        self.mt_block_by_expansion.insert(expansion, bump(before));
    }
}

/// The checker's counters.
pub struct Statistic {
    /// Minimisations of an inductive core.
    pub num_mic: usize,
    /// The literals that could be dropped and those that could not.
    pub mic_drop: DropTally,
    /// Attempts to drop a literal.
    pub num_down: usize,
    /// Solver queries of those attempts.
    pub num_down_sat: usize,
    /// Auxiliary variables.
    pub num_auxiliary_var: usize,
    /// Counters of the multi-timeframe search.
    pub mt: Mt,
}

impl Statistic {
    /// No event yet.
    pub open spec fn is_zero(self) -> bool {
        &&& self.num_mic == 0
        &&& self.mic_drop@ == DropTallyView::empty()
        &&& self.num_down == 0
        &&& self.num_down_sat == 0
        &&& self.num_auxiliary_var == 0
        &&& self.mt.is_zero()
    }

    /// Counters at zero.
    pub fn new() -> (r: Self)
        ensures
            r.is_zero(),
            r.num_mic == 0,
            r.mic_drop@.dropped == 0,
            r.mic_drop@.refused == 0,
            r.num_down == 0,
            r.num_down_sat == 0,
            r.num_auxiliary_var == 0,
            r.mt.num_restart == 0,
            r.mt.mt_lemma_added == 0,
    {
        Statistic {
            num_mic: 0,
            mic_drop: DropTally::new(),
            num_down: 0,
            num_down_sat: 0,
            num_auxiliary_var: 0,
            mt: Mt::new(),
        }
    }
}

/// An event raises a counter by one, and a full counter starts again at zero;
/// without the event it stays.
pub proof fn law_events_are_counted_one_by_one(n: usize, event: bool)
    ensures
        event && n < usize::MAX ==> bumped_if(n, event) == n + 1,
        event && n == usize::MAX ==> bumped_if(n, event) == 0,
        !event ==> bumped_if(n, event) == n,
        n < usize::MAX ==> bumped(n) == n + 1,
        bumped(usize::MAX) == 0,
{
}

/// An expansion that no attempt was counted for has none.
pub proof fn law_uncounted_expansion_has_no_attempts(
    counts: Map<usize, usize>,
    expansion: usize,
)
    ensures
        counts.contains_key(expansion) ==> attempts(counts, expansion) == counts[expansion],
        !counts.contains_key(expansion) ==> attempts(counts, expansion) == 0,
{
}

} // verus!
