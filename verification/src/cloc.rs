//! A collection of statistics records and its read-only report operations:
//! ranking by the share of unsafe lines, and picking the most unsafe.

use crate::error::ClocError;
use crate::stats::{lemma_no_smaller_is_transitive, views_of, ClocStats, StatsModel};
use crate::walk::{DirWalk, WalkModel, WalkPhase};
use vstd::prelude::*;

verus! {

/// How statistics are summed up.
#[derive(Copy, Clone, Debug, PartialEq, Eq, Structural)]
pub enum ClocVerbosity {
    /// One record per source file.
    File,
    /// One record per crate: per directory that holds a manifest.
    Crate,
    /// One record for everything under the top directory.
    TopLevel,
}

/// The mathematical content of a collection of records.
pub struct ClocModel {
    pub verbose: ClocVerbosity,
    pub stats: Seq<StatsModel>,
}

/// `a` has a smaller share of unsafe lines than `b`.
pub open spec fn ranks_below(a: StatsModel, b: StatsModel) -> bool {
    a.unsafe_ratio().less_than(b.unsafe_ratio())
}

/// No record comes before one with a larger share of unsafe lines.
pub open spec fn is_descending(records: Seq<StatsModel>) -> bool {
    forall|i: int, j: int|
        0 <= i < j < records.len() ==> !ranks_below(#[trigger] records[i], #[trigger] records[j])
}

/// `after` is `before` put in descending order of the share of unsafe lines,
/// records of equal share keeping their order; `origin[i]` is the place in
/// `before` of the record at place `i` of `after`.
pub open spec fn is_ranking(
    after: Seq<StatsModel>,
    before: Seq<StatsModel>,
    origin: Seq<int>,
) -> bool {
    &&& after.len() == before.len()
    &&& origin.len() == before.len()
    &&& forall|i: int|
        0 <= i < origin.len() ==> 0 <= #[trigger] origin[i] < before.len() && after[i]
            == before[origin[i]]
    &&& forall|i: int, j: int|
        0 <= i < j < origin.len() ==> #[trigger] origin[i] != #[trigger] origin[j]
    &&& is_descending(after)
    &&& forall|i: int, j: int|
        0 <= i < j < origin.len() && !ranks_below(after[j], after[i])
            ==> #[trigger] origin[i] < #[trigger] origin[j]
}

/// `after` is the stable descending ranking of `before`.
pub open spec fn is_ranked(after: Seq<StatsModel>, before: Seq<StatsModel>) -> bool {
    exists|origin: Seq<int>| is_ranking(after, before, origin)
}

/// The place of `record` among `ranked`: behind every record of a share that
/// is no smaller than its own.
pub open spec fn place_of(ranked: Seq<StatsModel>, record: StatsModel) -> int
    decreases ranked.len(),
{
    if ranked.len() > 0 && ranks_below(ranked.last(), record) {
        place_of(ranked.drop_last(), record)
    } else {
        ranked.len() as int
    }
}

/// `records` with the larger share of unsafe lines first, each record taking
/// its place among those that came before it.
pub open spec fn ranked(records: Seq<StatsModel>) -> Seq<StatsModel>
    decreases records.len(),
{
    if records.len() == 0 {
        records
    } else {
        let front = ranked(records.drop_last());
        front.insert(place_of(front, records.last()), records.last())
    }
}

/// `ranked` is the stable descending ranking: it holds the same records,
/// none before one of a larger share, and those of equal share in the order
/// they had.
pub proof fn lemma_ranked_is_stable(records: Seq<StatsModel>)
    ensures
        ranked(records).len() == records.len(),
        is_ranked(ranked(records), records),
        is_descending(ranked(records)),
{
    lemma_ranked_up_to(records, records.len() as int);
    let origin = choose|origin: Seq<int>|
        is_ranked_up_to(
            ranked(records.take(records.len() as int)) + records.skip(records.len() as int),
            records,
            origin,
            records.len() as int,
        );
    assert(records.take(records.len() as int) =~= records);
    assert(is_ranking(ranked(records), records, origin));
}

/// The place of a record is within the ranking; behind it stand only records
/// of a smaller share, and the record before it has no smaller share.
proof fn lemma_place_of(ranked: Seq<StatsModel>, record: StatsModel)
    ensures
        0 <= place_of(ranked, record) <= ranked.len(),
        forall|m: int|
            place_of(ranked, record) <= m < ranked.len() ==> ranks_below(
                #[trigger] ranked[m],
                record,
            ),
        place_of(ranked, record) > 0 ==> !ranks_below(
            ranked[place_of(ranked, record) - 1],
            record,
        ),
    decreases ranked.len(),
{
    if ranked.len() > 0 && ranks_below(ranked.last(), record) {
        lemma_place_of(ranked.drop_last(), record);
        assert forall|m: int| place_of(ranked, record) <= m < ranked.len() implies ranks_below(
            #[trigger] ranked[m],
            record,
        ) by {
            if m < ranked.len() - 1 {
                assert(ranked[m] == ranked.drop_last()[m]);
            }
        }
    }
}

/// Ranking the first `sorted` records of `records` and leaving the others in
/// place is a ranking up to `sorted`.
proof fn lemma_ranked_up_to(records: Seq<StatsModel>, sorted: int)
    requires
        0 <= sorted <= records.len(),
    ensures
        ranked(records.take(sorted)).len() == sorted,
        exists|origin: Seq<int>|
            is_ranked_up_to(
                ranked(records.take(sorted)) + records.skip(sorted),
                records,
                origin,
                sorted,
            ),
    decreases sorted,
{
    if sorted == 0 {
        let origin = Seq::new(records.len(), |i: int| i);
        assert(ranked(records.take(0)) + records.skip(0) =~= records);
        assert(is_ranked_up_to(records, records, origin, 0));
    } else {
        let done = sorted - 1;
        lemma_ranked_up_to(records, done);
        let front = ranked(records.take(done));
        let held = front + records.skip(done);
        let origin = choose|origin: Seq<int>| is_ranked_up_to(held, records, origin, done);
        let at = place_of(front, records[done]);
        lemma_place_of(front, records[done]);
        lemma_insert_ranks_one_more(held, records, origin, done, at);
        lemma_one_more_ranked(records, done);
        assert(held.remove(done).insert(at, held[done]) =~= ranked(records.take(sorted))
            + records.skip(sorted));
    }
}

/// Ranking one record more puts it in its place among those ranked before.
proof fn lemma_one_more_ranked(records: Seq<StatsModel>, done: int)
    requires
        0 <= done < records.len(),
    ensures
        ranked(records.take(done + 1)) == ranked(records.take(done)).insert(
            place_of(ranked(records.take(done)), records[done]),
            records[done],
        ),
{
    assert(records.take(done + 1).drop_last() =~= records.take(done));
}

/// A record with at least one unsafe line.
pub open spec fn has_unsafe(record: StatsModel) -> bool {
    record.num_unsafe > 0
}

/// The test `has_unsafe`, as a value.
pub open spec fn with_unsafe() -> spec_fn(StatsModel) -> bool {
    |record: StatsModel| has_unsafe(record)
}

/// The first `num` records of `records` that have unsafe lines, or all of
/// them where there are fewer.
pub open spec fn first_unsafe(records: Seq<StatsModel>, num: nat) -> Seq<StatsModel> {
    let marked = records.filter(with_unsafe());
    if num < marked.len() {
        marked.take(num as int)
    } else {
        marked
    }
}

/// The pick of the most unsafe records of a ranking holds no more than `num`
/// records, none without unsafe lines, and is itself in descending order.
pub proof fn lemma_first_unsafe_of_ranking(records: Seq<StatsModel>, num: nat)
    requires
        is_descending(records),
    ensures
        first_unsafe(records, num).len() <= num,
        forall|i: int|
            0 <= i < first_unsafe(records, num).len() ==> has_unsafe(
                #[trigger] first_unsafe(records, num)[i],
            ),
        is_descending(first_unsafe(records, num)),
{
    lemma_marked_stay_descending(records);
}

/// Leaving records out of a descending order keeps it descending.
proof fn lemma_marked_stay_descending(records: Seq<StatsModel>)
    requires
        is_descending(records),
    ensures
        is_descending(records.filter(with_unsafe())),
    decreases records.len(),
{
    reveal(Seq::filter);
    if records.len() > 0 {
        let front = records.drop_last();
        let kept = front.filter(with_unsafe());
        lemma_marked_stay_descending(front);
        if has_unsafe(records.last()) {
            let all = kept.push(records.last());
            assert forall|i: int, j: int| 0 <= i < j < all.len() implies !ranks_below(
                #[trigger] all[i],
                #[trigger] all[j],
            ) by {
                if j == kept.len() {
                    front.lemma_filter_contains_rev(with_unsafe(), kept[i]);
                }
            }
        }
    }
}

/// Looking at one more record adds it to the marked ones, or adds nothing.
proof fn lemma_marked_one_more(records: Seq<StatsModel>, seen: int)
    requires
        0 <= seen < records.len(),
    ensures
        records.take(seen + 1).filter(with_unsafe()) == if has_unsafe(records[seen]) {
            records.take(seen).filter(with_unsafe()).push(records[seen])
        } else {
            records.take(seen).filter(with_unsafe())
        },
{
    reveal(Seq::filter);
    assert(records.take(seen + 1).drop_last() =~= records.take(seen));
}

/// The marked records among the first `seen` are the pick of the whole, once
/// every record has been seen or `num` have been found.
proof fn lemma_marked_so_far_is_pick(records: Seq<StatsModel>, seen: int, num: nat)
    requires
        0 <= seen <= records.len(),
        records.take(seen).filter(with_unsafe()).len() <= num,
        seen == records.len() || records.take(seen).filter(with_unsafe()).len() == num,
    ensures
        records.take(seen).filter(with_unsafe()) == first_unsafe(records, num),
{
    let head = records.take(seen);
    let tail = records.skip(seen);
    assert(head + tail =~= records);
}

/// The first `sorted` records of `now` are ranked among themselves, each
/// record standing at `origin` in `before`; the others stand where they stood.
pub open spec fn is_ranked_up_to(
    now: Seq<StatsModel>,
    before: Seq<StatsModel>,
    origin: Seq<int>,
    sorted: int,
) -> bool {
    &&& now.len() == before.len()
    &&& origin.len() == before.len()
    &&& 0 <= sorted <= now.len()
    &&& forall|i: int|
        0 <= i < origin.len() ==> 0 <= #[trigger] origin[i] < before.len() && now[i]
            == before[origin[i]]
    &&& forall|i: int, j: int|
        0 <= i < j < origin.len() ==> #[trigger] origin[i] != #[trigger] origin[j]
    &&& forall|i: int| sorted <= i < origin.len() ==> #[trigger] origin[i] == i
    &&& forall|i: int| 0 <= i < sorted ==> #[trigger] origin[i] < sorted
    &&& forall|i: int, j: int|
        0 <= i < j < sorted ==> !ranks_below(#[trigger] now[i], #[trigger] now[j])
    &&& forall|i: int, j: int|
        0 <= i < j < sorted && !ranks_below(now[j], now[i])
            ==> #[trigger] origin[i] < #[trigger] origin[j]
}

/// Moving the first unranked record to the left, past the ranked records of
/// smaller share and no further, ranks one record more.
proof fn lemma_insert_ranks_one_more(
    held: Seq<StatsModel>,
    before: Seq<StatsModel>,
    origin: Seq<int>,
    sorted: int,
    at: int,
)
    requires
        is_ranked_up_to(held, before, origin, sorted),
        sorted < held.len(),
        0 <= at <= sorted,
        forall|m: int|
            at <= m < sorted ==> ranks_below(#[trigger] held[m], held[sorted]),
        at > 0 ==> !ranks_below(held[at - 1], held[sorted]),
    ensures
        is_ranked_up_to(
            held.remove(sorted).insert(at, held[sorted]),
            before,
            origin.remove(sorted).insert(at, sorted),
            sorted + 1,
        ),
{
    let now = held.remove(sorted).insert(at, held[sorted]);
    let moved = origin.remove(sorted).insert(at, sorted);
    // where each place of the new order comes from in the old one
    let from = |i: int|
        if i < at {
            i
        } else if i == at {
            sorted
        } else if i <= sorted {
            i - 1
        } else {
            i
        };
    assert forall|i: int| 0 <= i < held.len() implies 0 <= from(i) < held.len() && #[trigger] now[i]
        == held[from(i)] && #[trigger] moved[i] == origin[from(i)] by {}
    assert forall|i: int| 0 <= i < at implies !ranks_below(
        #[trigger] held[i],
        held[sorted],
    ) by {
        if i < at - 1 {
            lemma_no_smaller_is_transitive(
                held[i].unsafe_ratio(),
                held[at - 1].unsafe_ratio(),
                held[sorted].unsafe_ratio(),
            );
        }
    }
}

/// A collection of statistics records, with the mode they are gathered in.
#[derive(Debug)]
pub struct Cloc {
    verbose: ClocVerbosity,
    stats: Vec<ClocStats>,
}

impl View for Cloc {
    type V = ClocModel;

    closed spec fn view(&self) -> ClocModel {
        ClocModel { verbose: self.verbose, stats: views_of(self.stats@) }
    }
}

impl Cloc {
    /// An empty collection that gathers per crate.
    pub fn new() -> (cloc: Cloc)
        ensures
            cloc@.verbose == ClocVerbosity::Crate,
            cloc@.stats == Seq::<StatsModel>::empty(),
    {
        Cloc { verbose: ClocVerbosity::Crate, stats: Vec::new() }
    }

    /// The records, in the order they were added or ranked.
    pub fn stats(&self) -> (records: &Vec<ClocStats>)
        ensures
            views_of(records@) == self@.stats,
    {
        &self.stats
    }

    /// The mode records are gathered in.
    pub fn verbose(&self) -> (level: ClocVerbosity)
        ensures
            level == self@.verbose,
    {
        self.verbose
    }

    /// Sets the mode for what is gathered from now on; the records already
    /// held stay as they are.
    pub fn set_verbose(&mut self, level: ClocVerbosity)
        ensures
            final(self)@.verbose == level,
            final(self)@.stats == old(self)@.stats,
    {
        self.verbose = level;
    }

    /// Appends a record.
    pub fn add_stats(&mut self, stats: ClocStats)
        ensures
            final(self)@.verbose == old(self)@.verbose,
            final(self)@.stats == old(self)@.stats.push(stats@),
    {
        self.stats.push(stats);
    }

    /// Appends `records`, in their order.
    pub fn append_stats(&mut self, records: Vec<ClocStats>)
        ensures
            final(self)@.verbose == old(self)@.verbose,
            final(self)@.stats == old(self)@.stats + views_of(records@),
    {
        let mut records = records;
        self.stats.append(&mut records);
    }

    /// Starts a walk of the tree under `dir` that gathers in the mode of
    /// this collection; `is_dir` says whether `dir` names a directory.
    pub fn start_walk(&self, dir: &str, is_dir: bool) -> (made: Result<DirWalk, ClocError>)
        ensures
            match made {
                Ok(walk) => is_dir && walk.wf() && walk@.wf() && walk@ == WalkModel::start(
                    self@.verbose,
                    dir@,
                ),
                Err(error) => !is_dir && error == ClocError::NotADirectory,
            },
    {
        DirWalk::new(self.verbose, dir, is_dir)
    }

    /// Appends the records of a walk that is done. From a walk that was
    /// given up, or has not come to its end, nothing is taken.
    pub fn finish_walk(&mut self, walk: DirWalk) -> (outcome: Result<(), ClocError>)
        ensures
            final(self)@.verbose == old(self)@.verbose,
            match outcome {
                Ok(_) => walk@.phase == WalkPhase::Done && final(self)@.stats == old(self)@.stats
                    + walk@.records,
                Err(error) => walk@.phase != WalkPhase::Done && error == ClocError::IoFailure
                    && final(self)@.stats == old(self)@.stats,
            },
    {
        match walk.into_records() {
            Ok(records) => {
                self.append_stats(records);
                Ok(())
            },
            Err(error) => Err(error),
        }
    }

    /// Drops every record.
    pub fn clear_stats(&mut self)
        ensures
            final(self)@.verbose == old(self)@.verbose,
            final(self)@.stats == Seq::<StatsModel>::empty(),
    {
        self.stats.clear()
    }

    /// Number of records.
    pub fn len(&self) -> (n: usize)
        ensures
            n == self@.stats.len(),
    {
        self.stats.len()
    }

    /// Ranks the records by their share of unsafe lines, the largest first.
    /// Records of equal share keep their order.
    pub fn sort_stats(&mut self)
        ensures
            final(self)@.verbose == old(self)@.verbose,
            final(self)@.stats == ranked(old(self)@.stats),
            is_ranked(final(self)@.stats, old(self)@.stats),
    {
        let ghost before = self@.stats;
        let n = self.stats.len();
        let mut k: usize = 0;
        while k < n
            invariant
                k <= n,
                n == self.stats@.len(),
                n == before.len(),
                self.verbose == old(self).verbose,
                views_of(self.stats@) == ranked(before.take(k as int)) + before.skip(k as int),
            decreases n - k,
        {
            let ghost front = ranked(before.take(k as int));
            let ghost held = views_of(self.stats@);
            proof {
                lemma_ranked_up_to(before, k as int);
                assert(held[k as int] == before[k as int]);
                assert(front.take(k as int) =~= front);
            }
            let moved = self.stats.remove(k);
            let share = moved.unsafe_ratio();
            let mut at: usize = k;
            while at > 0 && self.stats[at - 1].unsafe_ratio().less_than(&share)
                invariant
                    at <= k < n,
                    n == before.len(),
                    held.len() == n,
                    front.len() == k,
                    held == front + before.skip(k as int),
                    self.stats@.len() == n - 1,
                    views_of(self.stats@) == held.remove(k as int),
                    share@ == before[k as int].unsafe_ratio(),
                    place_of(front, before[k as int]) == place_of(
                        front.take(at as int),
                        before[k as int],
                    ),
                decreases at,
            {
                proof {
                    assert(held.remove(k as int)[at - 1] == front[at - 1]);
                    assert(front.take(at as int).drop_last() =~= front.take(at - 1));
                }
                at = at - 1;
            }
            proof {
                if at > 0 {
                    assert(held.remove(k as int)[at - 1] == front[at - 1]);
                }
                lemma_one_more_ranked(before, k as int);
                let rest = before.skip(k + 1);
                assert(held.remove(k as int) =~= front + rest);
                assert((front + rest).insert(at as int, before[k as int]) =~= front.insert(
                    at as int,
                    before[k as int],
                ) + rest);
            }
            self.stats.insert(at, moved);
            k = k + 1;
        }
        proof {
            assert(before.take(n as int) =~= before);
            lemma_ranked_is_stable(before);
        }
    }

    /// Ranks the records as `sort_stats` does and hands out, in a collection
    /// of the same mode, copies of the first `num` that have unsafe lines;
    /// fewer where fewer have any, none where none has.
    pub fn top_unsafe(&mut self, num: usize) -> (top: Cloc)
        ensures
            final(self)@.verbose == old(self)@.verbose,
            final(self)@.stats == ranked(old(self)@.stats),
            top@.verbose == old(self)@.verbose,
            top@.stats == first_unsafe(ranked(old(self)@.stats), num as nat),
            top@.stats.len() <= num,
            forall|i: int| 0 <= i < top@.stats.len() ==> has_unsafe(#[trigger] top@.stats[i]),
            is_descending(top@.stats),
    {
        let mut top = Cloc::new();
        top.set_verbose(self.verbose);
        self.sort_stats();
        let ghost ranking = self@.stats;
        let n = self.stats.len();
        let mut i: usize = 0;
        proof {
            assert(views_of(top.stats@) =~= ranking.take(0).filter(with_unsafe()));
        }
        while i < n && top.stats.len() < num
            invariant
                i <= n,
                n == self.stats@.len(),
                ranking == views_of(self.stats@),
                top.verbose == self.verbose,
                top.stats@.len() <= num,
                views_of(top.stats@) == ranking.take(i as int).filter(with_unsafe()),
            decreases n - i,
        {
            proof {
                lemma_marked_one_more(ranking, i as int);
            }
            if self.stats[i].count_unsafe() > 0 {
                let copy = self.stats[i].clone();
                top.stats.push(copy);
            }
            i = i + 1;
        }
        proof {
            lemma_marked_so_far_is_pick(ranking, i as int, num as nat);
            lemma_first_unsafe_of_ranking(ranking, num as nat);
        }
        top
    }
}

} // verus!
