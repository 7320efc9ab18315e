//! The annealing search as a state machine. The machine holds the working
//! partition with its statistics and the best partition met so far. It hands
//! out statistics to be scored, takes each score back as a rank (an integer
//! that is lower where the description is shorter) and decides what the rank
//! settles; where chance has to decide, it asks for a draw and takes the
//! outcome. Scoring, drawing and cooling are the caller's part.

use crate::adjacency::GRAPH_LIMIT;
use crate::graph::{is_label_slot, GraphModel, GraphWrapper};
use crate::tally::{
    block_size, compute_move_impact, count_statistics, flipped, impact, is_partition,
    lemma_blocks_cover, lemma_counts_conserved, lemma_flip_agrees, lemma_flip_block_sizes,
    lemma_impact_conserves, loop_free, tally, Stats,
};
use rand::rngs::StdRng;
use std::collections::HashMap;
use vstd::prelude::*;

verus! {

broadcast use vstd::std_specs::hash::group_hash_axioms;

/// The most proposals one search makes. Within it the edge counts, which
/// are kept as signed 64-bit numbers, cannot leave their range.
pub const MAX_ITERATIONS: usize = 0x7fff_ffff;

/// Where the machine stands.
#[derive(Debug, Clone, Copy, PartialEq, Eq)]
pub enum Phase {
    /// The initial partition waits for its score.
    Unscored,
    /// Ready for the next proposal.
    Idle,
    /// Moving `node` to the other block has been proposed; the statistics
    /// that the move would give wait for their score.
    Proposed { node: usize, stats: Stats },
    /// The proposed move does not improve the score, which would be `rank`;
    /// chance decides.
    Undecided { node: usize, stats: Stats, rank: u64 },
}

/// What a score settled.
#[derive(Debug, Clone, Copy, PartialEq, Eq)]
pub enum Verdict {
    /// The scored partition is now the working partition.
    Accepted,
    /// The move is accepted only with the probability that its rise in
    /// score and the temperature give: draw, and report the outcome.
    Draw,
    /// No score was awaited; nothing changed.
    OutOfTurn,
}

/// Why a search did not start.
#[derive(Debug, Clone, Copy, PartialEq, Eq)]
pub enum SearchError {
    /// The graph has no node to propose.
    EmptyGraph,
    /// The node with this index has no label.
    UnlabelledNode(usize),
}

/// What happens to the machine from outside.
pub enum Event {
    /// Node `node` was drawn, and the move would give `stats`.
    Proposal { node: usize, stats: Stats },
    /// The awaited score came, as its rank.
    Score(u64),
    /// The awaited draw came: the move is accepted or not.
    Decision(bool),
}

/// The state of a search.
pub struct SearchModel {
    /// The working partition, by node index.
    pub labels: Seq<i8>,
    /// The statistics kept for the working partition.
    pub stats: Stats,
    /// The rank of the working partition.
    pub score: u64,
    /// The best partition so far.
    pub best_labels: Seq<i8>,
    /// Its rank.
    pub best_score: u64,
    /// The proposals made.
    pub done: nat,
    /// The proposals allowed.
    pub budget: nat,
    pub phase: Phase,
}

impl SearchModel {
    /// The working partition gets the rank `rank`; if that is strictly
    /// lower than the best so far, the working partition is the new best.
    pub open spec fn adopted(self, rank: u64) -> SearchModel {
        SearchModel {
            score: rank,
            best_labels: if rank < self.best_score {
                self.labels
            } else {
                self.best_labels
            },
            best_score: if rank < self.best_score {
                rank
            } else {
                self.best_score
            },
            phase: Phase::Idle,
            ..self
        }
    }

    /// Node `node` moves to the other block, the statistics become `stats`
    /// and the rank `rank`.
    pub open spec fn committed(self, node: usize, stats: Stats, rank: u64) -> SearchModel {
        (SearchModel { labels: flipped(self.labels, node as int), stats, ..self }).adopted(rank)
    }

    /// A proposal is taken while the machine is idle and the budget lasts.
    pub open spec fn proposed(self, node: usize, stats: Stats) -> SearchModel {
        if self.phase is Idle && self.done < self.budget {
            SearchModel { phase: Phase::Proposed { node, stats }, done: self.done + 1, ..self }
        } else {
            self
        }
    }

    /// A score is taken for the initial partition, which it makes the
    /// working partition's, or for a proposed move: a strictly lower rank
    /// than the working partition's commits the move, another leaves it to
    /// chance.
    pub open spec fn scored(self, rank: u64) -> SearchModel {
        match self.phase {
            Phase::Unscored => self.adopted(rank),
            Phase::Proposed { node, stats } => if rank < self.score {
                self.committed(node, stats, rank)
            } else {
                SearchModel { phase: Phase::Undecided { node, stats, rank }, ..self }
            },
            _ => self,
        }
    }

    /// The outcome of a draw commits the undecided move or drops it.
    pub open spec fn decided(self, accept: bool) -> SearchModel {
        match self.phase {
            Phase::Undecided { node, stats, rank } => if accept {
                self.committed(node, stats, rank)
            } else {
                SearchModel { phase: Phase::Idle, ..self }
            },
            _ => self,
        }
    }

    pub open spec fn step(self, event: Event) -> SearchModel {
        match event {
            Event::Proposal { node, stats } => self.proposed(node, stats),
            Event::Score(rank) => self.scored(rank),
            Event::Decision(accept) => self.decided(accept),
        }
    }

    /// The state after the events, taken from first to last.
    pub open spec fn run(self, events: Seq<Event>) -> SearchModel
        decreases events.len(),
    {
        if events.len() == 0 {
            self
        } else {
            self.run(events.drop_last()).step(events.last())
        }
    }

    /// What the verdict on a score is.
    pub open spec fn verdict(self, rank: u64) -> Verdict {
        match self.phase {
            Phase::Unscored => Verdict::Accepted,
            Phase::Proposed { node, stats } => if rank < self.score {
                Verdict::Accepted
            } else {
                Verdict::Draw
            },
            _ => Verdict::OutOfTurn,
        }
    }
}

/// No event raises the best rank, and the best partition changes only with
/// a strictly lower rank.
pub proof fn lemma_step_best(state: SearchModel, event: Event)
    ensures
        state.step(event).best_score <= state.best_score,
        state.step(event).best_score == state.best_score ==> state.step(event).best_labels
            == state.best_labels,
{
}

/// Over a run the best rank never rises: of two moments of a run, the later
/// has the lower or the same best rank.
pub proof fn lemma_best_never_rises(state: SearchModel, events: Seq<Event>, i: int, j: int)
    requires
        0 <= i <= j <= events.len(),
    ensures
        state.run(events.take(j)).best_score <= state.run(events.take(i)).best_score,
    decreases j - i,
{
    if i < j {
        lemma_best_never_rises(state, events, i, j - 1);
        assert(events.take(j).drop_last() =~= events.take(j - 1));
        lemma_step_best(state.run(events.take(j - 1)), events[j - 1]);
    }
}

/// The edge counts of `stats` are within what `done` proposals can have made
/// of the counts of a graph: each proposal moves a count by no more than the
/// number of edges.
pub open spec fn in_range(stats: Stats, done: nat) -> bool {
    let bound = GRAPH_LIMIT * (1 + done);
    &&& -bound <= stats.m00 <= bound
    &&& -bound <= stats.m11 <= bound
    &&& -bound <= stats.m01 <= bound
}

/// The statistics `stats` are what moving `node` gives in the state `s`.
pub open spec fn is_move(g: GraphModel, s: SearchModel, node: usize, stats: Stats) -> bool {
    &&& node < g.ids.len()
    &&& stats.counts() == s.stats.counts().plus(impact(g.edges, s.labels, node))
    &&& stats.n0 == block_size(flipped(s.labels, node as int), 0)
    &&& stats.n1 == block_size(flipped(s.labels, node as int), 1)
}

/// What holds of a search on the graph `g` in every state: both partitions
/// label every node, the block sizes are those of the working partition,
/// every edge is counted once, the best rank is no higher than the working
/// rank, and on a graph without an edge from a node to itself the edge
/// counts are those of the working partition.
pub open spec fn sound(g: GraphModel, s: SearchModel) -> bool {
    &&& g.valid()
    &&& 0 < g.ids.len() <= GRAPH_LIMIT
    &&& g.edges.len() <= GRAPH_LIMIT
    &&& s.labels.len() == g.ids.len()
    &&& is_partition(s.labels)
    &&& s.best_labels.len() == g.ids.len()
    &&& is_partition(s.best_labels)
    &&& s.stats.n0 == block_size(s.labels, 0)
    &&& s.stats.n1 == block_size(s.labels, 1)
    &&& s.stats.counts().total() == g.edges.len()
    &&& loop_free(g.edges) ==> s.stats.counts() == tally(g.edges, s.labels)
    &&& s.done <= s.budget <= MAX_ITERATIONS
    &&& in_range(s.stats, s.done)
    &&& s.best_score <= s.score
    &&& match s.phase {
        Phase::Unscored => s.score == u64::MAX && s.best_score == u64::MAX && s.best_labels
            == s.labels && s.done == 0,
        Phase::Idle => true,
        Phase::Proposed { node, stats } => is_move(g, s, node, stats) && in_range(stats, s.done),
        Phase::Undecided { node, stats, rank } => is_move(g, s, node, stats) && in_range(
            stats,
            s.done,
        ) && rank >= s.score,
    }
}

/// In every state of a search each edge is counted once and each node sits in
/// one block: the three edge counts add up to the number of edges, the two
/// block sizes to the number of nodes. The same holds of the statistics of a
/// move that waits for its score or for a draw.
pub proof fn lemma_sound_conserves(g: GraphModel, s: SearchModel)
    requires
        sound(g, s),
    ensures
        s.stats.m00 + s.stats.m11 + s.stats.m01 == g.edges.len(),
        s.stats.n0 + s.stats.n1 == g.ids.len(),
        match s.phase {
            Phase::Proposed { node, stats } | Phase::Undecided { node, stats, .. } => {
                &&& stats.m00 + stats.m11 + stats.m01 == g.edges.len()
                &&& stats.n0 + stats.n1 == g.ids.len()
            },
            _ => true,
        },
{
    lemma_blocks_cover(s.labels);
    match s.phase {
        Phase::Proposed { node, stats } | Phase::Undecided { node, stats, .. } => {
            lemma_impact_conserves(g.edges, s.labels, node);
            lemma_flip_block_sizes(s.labels, node as int);
            lemma_blocks_cover(flipped(s.labels, node as int));
        },
        _ => {},
    }
}

/// The state in which a search on `g` starts: the labels of the store are
/// the working and the best partition, no rank is known yet.
pub open spec fn initial(g: GraphModel, s: SearchModel, max_iter: usize) -> bool {
    &&& s.labels.len() == g.labels.len()
    &&& forall|i: int| 0 <= i < g.labels.len() ==> g.labels[i] == Some(#[trigger] s.labels[i])
    &&& s.best_labels == s.labels
    &&& s.stats.counts() == tally(g.edges, s.labels)
    &&& s.stats.n0 == block_size(s.labels, 0)
    &&& s.stats.n1 == block_size(s.labels, 1)
    &&& s.score == u64::MAX
    &&& s.best_score == u64::MAX
    &&& s.done == 0
    &&& s.budget == max_iter
    &&& s.phase is Unscored
}

/// A proposed move.
#[derive(Debug, Clone, Copy, PartialEq, Eq)]
pub struct Proposal {
    pub node: usize,
    pub stats: Stats,
}

/// A search in progress on a graph.
pub struct Annealer<'a> {
    graph: &'a GraphWrapper,
    labels: Vec<i8>,
    stats: Stats,
    score: u64,
    best_labels: Vec<i8>,
    best_score: u64,
    done: usize,
    budget: usize,
    phase: Phase,
}

impl<'a> View for Annealer<'a> {
    type V = SearchModel;

    closed spec fn view(&self) -> SearchModel {
        SearchModel {
            labels: self.labels@,
            stats: self.stats,
            score: self.score,
            best_labels: self.best_labels@,
            best_score: self.best_score,
            done: self.done as nat,
            budget: self.budget as nat,
            phase: self.phase,
        }
    }
}

/// Names each node of a partition by its outside identifier: the map from
/// the identifier of every node to the label of that node.
pub fn relabel_partition(g: &GraphWrapper, best_partition: &Vec<i8>) -> (named: HashMap<i32, i8>)
    requires
        g.wf(),
        best_partition@.len() == g@.ids.len(),
    ensures
        forall|id: i32| #[trigger] named@.contains_key(id) <==> g@.has(id),
        forall|i: int|
            0 <= i < g@.ids.len() ==> named@[#[trigger] g@.ids[i]] == best_partition@[i],
{
    let mut named: HashMap<i32, i8> = HashMap::new();
    let n = g.node_count();
    let mut i: usize = 0;
    while i < n
        invariant
            i <= n,
            n == g@.ids.len(),
            g.wf(),
            best_partition@.len() == n,
            forall|id: i32| #[trigger]
                named@.contains_key(id) <==> g@.ids.take(i as int).contains(id),
            forall|j: int| 0 <= j < i ==> named@[#[trigger] g@.ids[j]] == best_partition@[j],
        decreases n - i,
    {
        let id = g.external_id(i);
        named.insert(id, best_partition[i]);
        proof {
            let seen = g@.ids.take(i as int);
            let next = g@.ids.take(i + 1);
            assert(next =~= seen.push(id));
            assert forall|k: i32| #[trigger] named@.contains_key(k) <==> next.contains(k) by {
                if seen.contains(k) {
                    let j = seen.index_of(k);
                    assert(next[j] == k);
                }
                if next.contains(k) && k != id {
                    let j = next.index_of(k);
                    assert(seen[j] == k);
                }
                assert(next[i as int] == id);
            }
            assert forall|j: int| 0 <= j < i + 1 implies named@[#[trigger] g@.ids[j]]
                == best_partition@[j] by {
                if j < i {
                    assert(g@.ids[j] != id);
                }
            }
        }
        i = i + 1;
    }
    assert(g@.ids.take(i as int) =~= g@.ids);
    named
}

fn copy_labels(labels: &Vec<i8>) -> (copy: Vec<i8>)
    ensures
        copy@ == labels@,
{
    let mut copy: Vec<i8> = Vec::new();
    let mut i: usize = 0;
    while i < labels.len()
        invariant
            i <= labels@.len(),
            copy@ == labels@.take(i as int),
        decreases labels.len() - i,
    {
        copy.push(labels[i]);
        assert(labels@.take(i + 1) =~= labels@.take(i as int).push(labels@[i as int]));
        i = i + 1;
    }
    assert(labels@.take(i as int) =~= labels@);
    copy
}

impl<'a> Annealer<'a> {
    /// The graph that is searched.
    pub closed spec fn graph(&self) -> GraphModel {
        self.graph@
    }

    pub closed spec fn anchored(&self) -> bool {
        self.graph.wf()
    }

    /// Well-formedness: what `start` gives and every method keeps.
    pub open spec fn wf(&self) -> bool {
        &&& self.anchored()
        &&& sound(self.graph(), self@)
    }

    /// The statistics that wait for their score: those of the initial
    /// partition, or those that the proposed move would give.
    pub fn pending(&self) -> (awaited: Option<Stats>)
        ensures
            awaited == match self@.phase {
                Phase::Unscored => Some(self@.stats),
                Phase::Proposed { node, stats } => Some(stats),
                _ => None,
            },
    {
        match self.phase {
            Phase::Unscored => Some(self.stats),
            Phase::Proposed { node, stats } => Some(stats),
            _ => None,
        }
    }

    /// The statistics kept for the working partition.
    pub fn stats(&self) -> (stats: Stats)
        ensures
            stats == self@.stats,
    {
        self.stats
    }

    pub fn phase(&self) -> (phase: Phase)
        ensures
            phase == self@.phase,
    {
        self.phase
    }

    /// The rank of the working partition.
    pub fn score(&self) -> (rank: u64)
        ensures
            rank == self@.score,
    {
        self.score
    }

    /// The rank of the best partition so far.
    pub fn best_score(&self) -> (rank: u64)
        ensures
            rank == self@.best_score,
    {
        self.best_score
    }

    /// The number of proposals made.
    pub fn iteration(&self) -> (done: usize)
        ensures
            done == self@.done,
    {
        self.done
    }

    /// The number of nodes of the graph that is searched.
    pub fn node_count(&self) -> (n: usize)
        requires
            self.wf(),
        ensures
            n == self.graph().ids.len(),
    {
        self.graph.node_count()
    }

    /// The working partition, by node index.
    pub fn labels(&self) -> (labels: &Vec<i8>)
        ensures
            labels@ == self@.labels,
    {
        &self.labels
    }

    /// The best partition so far, by node index.
    pub fn best_labels(&self) -> (labels: &Vec<i8>)
        ensures
            labels@ == self@.best_labels,
    {
        &self.best_labels
    }

    /// The best partition so far, each node named by its outside identifier.
    pub fn best_partition(&self) -> (named: HashMap<i32, i8>)
        requires
            self.wf(),
        ensures
            forall|id: i32| #[trigger] named@.contains_key(id) <==> self.graph().has(id),
            forall|i: int|
                0 <= i < self.graph().ids.len() ==> named@[#[trigger] self.graph().ids[i]]
                    == self@.best_labels[i],
    {
        relabel_partition(self.graph, &self.best_labels)
    }

    /// Draws a node and proposes to move it to the other block. The
    /// statistics that the move would give are the present ones with the
    /// impact of the move on the edge counts and with the node taken from
    /// one block size to the other. Nothing is proposed unless the machine
    /// is idle and has made fewer proposals than it was started for.
    pub fn propose(&mut self, rng: &mut StdRng) -> (proposal: Option<Proposal>)
        requires
            old(self).wf(),
        ensures
            final(self).wf(),
            final(self).graph() == old(self).graph(),
            proposal is Some <==> old(self)@.phase is Idle && old(self)@.done < old(self)@.budget,
            proposal is None ==> final(self)@ == old(self)@,
            proposal matches Some(p) ==> {
                &&& is_move(old(self).graph(), old(self)@, p.node, p.stats)
                &&& final(self)@ == old(self)@.proposed(p.node, p.stats)
            },
    {
        let idle = match self.phase {
            Phase::Idle => true,
            _ => false,
        };
        if !idle || self.done >= self.budget {
            return None;
        }
        let node = match self.graph.sample_node(rng) {
            Some(i) => i,
            None => {
                return None;
            },
        };
        let delta = compute_move_impact(self.graph, &self.labels, node);
        let from_zero = self.labels[node] == 0;
        proof {
            lemma_flip_block_sizes(self.labels@, node as int);
            lemma_blocks_cover(flipped(self.labels@, node as int));
        }
        let (n0, n1): (usize, usize) = if from_zero {
            (self.stats.n0 - 1, self.stats.n1 + 1)
        } else {
            (self.stats.n0 + 1, self.stats.n1 - 1)
        };
        let stats = Stats {
            m00: self.stats.m00 + delta.0,
            m11: self.stats.m11 + delta.1,
            m01: self.stats.m01 + delta.2,
            n0,
            n1,
        };
        self.phase = Phase::Proposed { node, stats };
        self.done = self.done + 1;
        Some(Proposal { node, stats })
    }

    /// Moves `node` to the other block and takes `stats` and `rank` for the
    /// working partition.
    fn commit(&mut self, node: usize, stats: Stats, rank: u64)
        requires
            old(self).wf(),
            is_move(old(self).graph(), old(self)@, node, stats),
            in_range(stats, old(self)@.done),
        ensures
            final(self).wf(),
            final(self).graph() == old(self).graph(),
            final(self)@ == old(self)@.committed(node, stats, rank),
    {
        proof {
            let g = self.graph();
            lemma_flip_block_sizes(self.labels@, node as int);
            lemma_impact_conserves(g.edges, self.labels@, node);
            if loop_free(g.edges) {
                lemma_flip_agrees(g.edges, self.labels@, node);
            }
        }
        let flipped_label: i8 = if self.labels[node] == 0 {
            1
        } else {
            0
        };
        self.labels.set(node, flipped_label);
        self.stats = stats;
        self.score = rank;
        if rank < self.best_score {
            self.best_score = rank;
            self.best_labels = copy_labels(&self.labels);
        }
        self.phase = Phase::Idle;
    }

    /// Takes the rank of the statistics that wait for their score. The rank
    /// of the initial partition becomes the working rank. The rank of a
    /// proposed move commits the move if it is strictly lower than the
    /// working rank, and otherwise leaves the move to a draw. A partition
    /// whose rank is strictly lower than the best so far becomes the best.
    pub fn submit_score(&mut self, rank: u64) -> (verdict: Verdict)
        requires
            old(self).wf(),
        ensures
            final(self).wf(),
            final(self).graph() == old(self).graph(),
            final(self)@ == old(self)@.scored(rank),
            verdict == old(self)@.verdict(rank),
            final(self)@.best_score <= old(self)@.best_score,
    {
        match self.phase {
            Phase::Unscored => {
                self.score = rank;
                if rank < self.best_score {
                    self.best_score = rank;
                }
                self.phase = Phase::Idle;
                Verdict::Accepted
            },
            Phase::Proposed { node, stats } => {
                if rank < self.score {
                    self.commit(node, stats, rank);
                    Verdict::Accepted
                } else {
                    self.phase = Phase::Undecided { node, stats, rank };
                    Verdict::Draw
                }
            },
            _ => Verdict::OutOfTurn,
        }
    }

    /// Takes the outcome of the draw on an undecided move: the move is
    /// committed or dropped. Where no draw was asked for, nothing changes.
    pub fn decide(&mut self, accept: bool)
        requires
            old(self).wf(),
        ensures
            final(self).wf(),
            final(self).graph() == old(self).graph(),
            final(self)@ == old(self)@.decided(accept),
            final(self)@.best_score <= old(self)@.best_score,
    {
        match self.phase {
            Phase::Undecided { node, stats, rank } => {
                if accept {
                    self.commit(node, stats, rank);
                } else {
                    self.phase = Phase::Idle;
                }
            },
            _ => {},
        }
    }

    /// Starts a search on `g` from the partition that `g` holds, for at most
    /// `max_iter` proposals. A graph without nodes is refused, and so is one
    /// with a node that has no label; of several such nodes the one with the
    /// lowest index is reported.
    pub fn start(g: &'a GraphWrapper, max_iter: usize) -> (outcome: Result<Annealer<'a>, SearchError>)
        requires
            g.wf(),
            max_iter <= MAX_ITERATIONS,
        ensures
            match outcome {
                Ok(search) => {
                    &&& g@.ids.len() > 0
                    &&& search.wf()
                    &&& search.graph() == g@
                    &&& initial(g@, search@, max_iter)
                },
                Err(SearchError::EmptyGraph) => g@.ids.len() == 0,
                Err(SearchError::UnlabelledNode(i)) => {
                    &&& i < g@.ids.len()
                    &&& g@.labels[i as int] is None
                    &&& forall|j: int| 0 <= j < i ==> #[trigger] g@.labels[j] is Some
                },
            },
    {
        let n = g.node_count();
        if n == 0 {
            return Err(SearchError::EmptyGraph);
        }
        let mut labels: Vec<i8> = Vec::new();
        let mut i: usize = 0;
        while i < n
            invariant
                i <= n,
                n == g@.ids.len(),
                g.wf(),
                labels@.len() == i,
                forall|j: int| 0 <= j < i ==> g@.labels[j] == Some(#[trigger] labels@[j]),
                forall|j: int| 0 <= j < i ==> #[trigger] g@.labels[j] is Some,
            decreases n - i,
        {
            match g.label(i) {
                Some(l) => {
                    labels.push(l);
                },
                None => {
                    return Err(SearchError::UnlabelledNode(i));
                },
            }
            i = i + 1;
        }
        assert(is_partition(labels@)) by {
            assert forall|j: int| 0 <= j < labels@.len() implies #[trigger] labels@[j] == 0
                || labels@[j] == 1 by {
                assert(is_label_slot(g@.labels[j]));
            }
        }
        let stats = count_statistics(g, &labels);
        let best_labels = copy_labels(&labels);
        proof {
            lemma_counts_conserved(g@.edges, labels@);
        }
        Ok(
            Annealer {
                graph: g,
                labels,
                stats,
                score: u64::MAX,
                best_labels,
                best_score: u64::MAX,
                done: 0,
                budget: max_iter,
                phase: Phase::Unscored,
            },
        )
    }
}

} // verus!
