//! The order in which the commands of a phase run, and in which their results are kept.
use crate::join::sort_by_keys;
use crate::order::{models, positions, positions_hold, stable_sorted};
use crate::report::text_option;
use crate::text::same;
use vstd::prelude::*;

verus! {

/// The commands of one node, by their positions in the order of the configuration.
#[derive(Debug)]
pub struct Queue {
    pub node: String,
    pub jobs: Vec<usize>,
}

/// The nodes of the commands: none for a command that runs here.
pub open spec fn node_texts(nodes: Seq<Option<String>>) -> Seq<Option<Seq<char>>> {
    nodes.map_values(|n: Option<String>| text_option(n))
}

pub open spec fn job_positions(jobs: Seq<usize>) -> Seq<int> {
    jobs.map_values(|j: usize| j as int)
}

pub open spec fn queue_nodes(queues: Seq<Queue>) -> Seq<Seq<char>> {
    queues.map_values(|q: Queue| q.node@)
}

/// The nodes that are named, in the order in which they first occur.
pub open spec fn named_nodes(nodes: Seq<Option<Seq<char>>>) -> Seq<Seq<char>>
    decreases nodes.len(),
{
    if nodes.len() == 0 {
        Seq::empty()
    } else {
        let before = named_nodes(nodes.drop_last());
        match nodes.last() {
            Some(node) => if nodes.drop_last().contains(Some(node)) {
                before
            } else {
                before.push(node)
            },
            None => before,
        }
    }
}

/// One queue for each node, with the positions of the commands on it in ascending order.
pub open spec fn queued(nodes: Seq<Option<Seq<char>>>, queues: Seq<Queue>) -> bool {
    &&& queue_nodes(queues) == named_nodes(nodes)
    &&& forall|q: int|
        0 <= q < queues.len() ==> job_positions((#[trigger] queues[q]).jobs@) == positions(
            nodes,
            Some(queues[q].node@),
        )
}

proof fn named_nodes_hold(nodes: Seq<Option<Seq<char>>>)
    ensures
        forall|n: Seq<char>| #[trigger]
            named_nodes(nodes).contains(n) <==> nodes.contains(Some(n)),
        named_nodes(nodes).no_duplicates(),
    decreases nodes.len(),
{
    let all = named_nodes(nodes);
    if nodes.len() == 0 {
        assert(!nodes.contains(None::<Seq<char>>));
        assert forall|n: Seq<char>| #[trigger] all.contains(n) <==> nodes.contains(Some(n)) by {}
    } else {
        let rest = nodes.drop_last();
        named_nodes_hold(rest);
        let before = named_nodes(rest);
        assert(nodes == rest.push(nodes.last()));
        assert forall|n: Seq<char>| #[trigger] all.contains(n) <==> nodes.contains(Some(n)) by {
            if all.contains(n) {
                let i = choose|i: int| 0 <= i < all.len() && all[i] == n;
                if i < before.len() {
                    assert(before.contains(n));
                    let j = choose|j: int| 0 <= j < rest.len() && rest[j] == Some(n);
                    assert(nodes[j] == Some(n));
                } else {
                    assert(nodes[nodes.len() - 1] == Some(n));
                }
            }
            if nodes.contains(Some(n)) {
                let j = choose|j: int| 0 <= j < nodes.len() && nodes[j] == Some(n);
                if j < rest.len() {
                    assert(rest[j] == Some(n));
                    assert(rest.contains(Some(n)));
                    assert(before.contains(n));
                    let i = choose|i: int| 0 <= i < before.len() && before[i] == n;
                    assert(all[i] == n);
                } else if rest.contains(Some(n)) {
                    assert(before.contains(n));
                } else {
                    assert(all[all.len() - 1] == n);
                }
            }
        }
        assert(all.no_duplicates()) by {
            if all != before {
                let node = nodes.last()->0;
                assert(!before.contains(node));
                assert forall|i: int, j: int|
                    0 <= i < all.len() && 0 <= j < all.len() && i != j implies all[i]
                    != all[j] by {
                    if i < before.len() && j < before.len() {
                        assert(before[i] != before[j]);
                    } else if i < before.len() {
                        assert(before.contains(before[i]));
                    } else {
                        assert(before.contains(before[j]));
                    }
                }
            }
        }
    }
}

/// One more command extends the queue of its node, or opens one.
proof fn queue_step(
    before: Seq<Option<Seq<char>>>,
    node: Option<Seq<char>>,
    old_queues: Seq<Queue>,
    queues: Seq<Queue>,
    at: int,
)
    requires
        queued(before, old_queues),
        match node {
            None => queues == old_queues,
            Some(n) => {
                ||| {
                    &&& 0 <= at < old_queues.len() == queues.len()
                    &&& old_queues[at].node@ == n
                    &&& queues[at].node@ == n
                    &&& job_positions(queues[at].jobs@) == job_positions(
                        old_queues[at].jobs@,
                    ).push(before.len() as int)
                    &&& forall|q: int|
                        0 <= q < queues.len() && q != at ==> queues[q] == old_queues[q]
                }
                ||| {
                    &&& !queue_nodes(old_queues).contains(n)
                    &&& queues.len() == old_queues.len() + 1
                    &&& queues.last().node@ == n
                    &&& job_positions(queues.last().jobs@) == seq![before.len() as int]
                    &&& forall|q: int|
                        0 <= q < old_queues.len() ==> #[trigger] queues[q] == old_queues[q]
                }
            },
        },
    ensures
        queued(before.push(node), queues),
{
    let after = before.push(node);
    assert(after.drop_last() == before);
    named_nodes_hold(before);
    let names = named_nodes(before);
    match node {
        None => {
            assert forall|q: int| 0 <= q < queues.len() implies job_positions(
                (#[trigger] queues[q]).jobs@,
            ) == positions(after, Some(queues[q].node@)) by {
                assert(job_positions(old_queues[q].jobs@) == positions(
                    before,
                    Some(old_queues[q].node@),
                ));
            }
        },
        Some(n) => {
            let found = 0 <= at < old_queues.len() && old_queues[at].node@ == n && queues.len()
                == old_queues.len();
            if found {
                assert(queue_nodes(old_queues)[at] == n);
                assert(names.contains(n));
                assert(before.contains(Some(n)));
                assert(queue_nodes(queues) == queue_nodes(old_queues));
                assert forall|q: int| 0 <= q < queues.len() implies job_positions(
                    (#[trigger] queues[q]).jobs@,
                ) == positions(after, Some(queues[q].node@)) by {
                    assert(job_positions(old_queues[q].jobs@) == positions(
                        before,
                        Some(old_queues[q].node@),
                    ));
                    if q != at {
                        assert(names[q] == old_queues[q].node@);
                        assert(names[at] == n);
                        assert(names[q] != names[at]);
                    }
                }
            } else {
                assert(!names.contains(n));
                assert(!before.contains(Some(n)));
                assert(queue_nodes(queues) == queue_nodes(old_queues).push(n));
                absent_has_no_position(before, Some(n));
                assert forall|q: int| 0 <= q < queues.len() implies job_positions(
                    (#[trigger] queues[q]).jobs@,
                ) == positions(after, Some(queues[q].node@)) by {
                    if q < old_queues.len() {
                        assert(queues[q] == old_queues[q]);
                        assert(job_positions(old_queues[q].jobs@) == positions(
                            before,
                            Some(old_queues[q].node@),
                        ));
                        assert(names[q] == old_queues[q].node@);
                        assert(names.contains(names[q]));
                    } else {
                        assert(positions(before, Some(n)) == Seq::<int>::empty());
                        assert(positions(after, Some(n)) == seq![before.len() as int]);
                    }
                }
            }
        },
    }
}

proof fn absent_has_no_position<M>(keys: Seq<M>, k: M)
    requires
        !keys.contains(k),
    ensures
        positions(keys, k) == Seq::<int>::empty(),
{
    positions_hold(keys, k);
    if positions(keys, k).len() > 0 {
        assert(keys[positions(keys, k)[0]] == k);
    }
}

/// Puts the commands of a phase into one queue for each node. The commands on a node keep the order
/// of the configuration, because they hand work to each other there.
pub fn node_queues(nodes: &Vec<Option<String>>) -> (queues: Vec<Queue>)
    ensures
        queued(node_texts(nodes@), queues@),
{
    let ghost all = node_texts(nodes@);
    let mut queues: Vec<Queue> = Vec::new();
    let mut i: usize = 0;
    assert(all.take(0) == Seq::<Option<Seq<char>>>::empty());
    assert(queue_nodes(queues@) == Seq::<Seq<char>>::empty());
    while i < nodes.len()
        invariant
            i <= nodes@.len(),
            all == node_texts(nodes@),
            queued(all.take(i as int), queues@),
        decreases nodes.len() - i,
    {
        let ghost before = all.take(i as int);
        let ghost old_queues = queues@;
        let ghost mut at: int = 0;
        assert(all.take(i + 1) == before.push(all[i as int]));
        match &nodes[i] {
            None => {},
            Some(name) => {
                let mut q: usize = 0;
                let n: usize = queues.len();
                while q < n && !same(queues[q].node.as_str(), name.as_str())
                    invariant
                        q <= n,
                        n == queues@.len(),
                        queues@ == old_queues,
                        forall|p: int| 0 <= p < q ==> (#[trigger] queues@[p]).node@ != name@,
                    decreases n - q,
                {
                    q += 1;
                }
                proof {
                    at = q as int;
                }
                if q < n {
                    let ghost jobs = queues@[q as int].jobs@;
                    let node = queues[q].node.clone();
                    let mut list: Vec<usize> = Vec::new();
                    let mut k: usize = 0;
                    while k < queues[q].jobs.len()
                        invariant
                            q < queues@.len(),
                            jobs == queues@[q as int].jobs@,
                            k <= jobs.len(),
                            list@ == jobs.take(k as int),
                        decreases jobs.len() - k,
                    {
                        list.push(queues[q].jobs[k]);
                        assert(jobs.take(k + 1) == jobs.take(k as int).push(jobs[k as int]));
                        k += 1;
                    }
                    assert(jobs.take(k as int) == jobs);
                    list.push(i);
                    assert(job_positions(list@) == job_positions(jobs).push(i as int));
                    queues.set(q, Queue { node, jobs: list });
                } else {
                    let mut jobs: Vec<usize> = Vec::new();
                    jobs.push(i);
                    assert(job_positions(jobs@) == seq![i as int]);
                    queues.push(Queue { node: name.clone(), jobs });
                    proof {
                        if queue_nodes(old_queues).contains(name@) {
                            let p = choose|p: int|
                                0 <= p < queue_nodes(old_queues).len() && queue_nodes(
                                    old_queues,
                                )[p] == name@;
                            assert(old_queues[p].node@ == name@);
                        }
                    }
                }
            },
        }
        proof {
            queue_step(before, all[i as int], old_queues, queues@, at);
        }
        i += 1;
    }
    assert(all.take(i as int) == all);
    queues
}

/// The positions of the commands that run here, after those on the nodes.
pub fn local_jobs(nodes: &Vec<Option<String>>) -> (r: Vec<usize>)
    ensures
        job_positions(r@) == positions(node_texts(nodes@), None),
{
    let ghost all = node_texts(nodes@);
    let mut out: Vec<usize> = Vec::new();
    let mut i: usize = 0;
    assert(all.take(0) == Seq::<Option<Seq<char>>>::empty());
    assert(job_positions(out@) == Seq::<int>::empty());
    while i < nodes.len()
        invariant
            i <= nodes@.len(),
            all == node_texts(nodes@),
            job_positions(out@) == positions(all.take(i as int), None),
        decreases nodes.len() - i,
    {
        proof {
            assert(all.take(i + 1).drop_last() == all.take(i as int));
            assert(all.take(i + 1).last() == all[i as int]);
        }
        if nodes[i].is_none() {
            let ghost was = out@;
            out.push(i);
            assert(job_positions(out@) == job_positions(was).push(i as int));
        }
        i += 1;
    }
    assert(all.take(i as int) == all);
    out
}

/// Every command stands in exactly one queue, or among those that run here; in each queue the
/// commands keep the order of the configuration.
pub proof fn every_command_runs_once(nodes: Seq<Option<Seq<char>>>, queues: Seq<Queue>, i: int)
    requires
        queued(nodes, queues),
        0 <= i < nodes.len(),
    ensures
        match nodes[i] {
            None => positions(nodes, None::<Seq<char>>).contains(i),
            Some(n) => exists|q: int|
                0 <= q < queues.len() && (#[trigger] queues[q]).node@ == n && job_positions(
                    queues[q].jobs@,
                ).contains(i),
        },
        forall|q: int, a: int, b: int|
            0 <= q < queues.len() && 0 <= a < b < queues[q].jobs@.len() ==> (#[trigger] queues[q].jobs@[a])
                < (#[trigger] queues[q].jobs@[b]),
        forall|p: int, q: int|
            0 <= p < q < queues.len() ==> (#[trigger] queues[p]).node@ != (
            #[trigger] queues[q]).node@,
{
    named_nodes_hold(nodes);
    let names = named_nodes(nodes);
    match nodes[i] {
        None => {
            positions_hold(nodes, None::<Seq<char>>);
        },
        Some(n) => {
            assert(nodes.contains(Some(n)));
            assert(names.contains(n));
            let q = choose|q: int| 0 <= q < names.len() && names[q] == n;
            assert(queue_nodes(queues)[q] == n);
            positions_hold(nodes, Some(n));
            assert(queues[q].node@ == n);
        },
    }
    assert forall|q: int, a: int, b: int|
        0 <= q < queues.len() && 0 <= a < b < queues[q].jobs@.len() implies (
    #[trigger] queues[q].jobs@[a]) < (#[trigger] queues[q].jobs@[b]) by {
        let list = job_positions(queues[q].jobs@);
        positions_hold(nodes, Some(queues[q].node@));
        assert(list[a] < list[b]);
    }
    assert forall|p: int, q: int| 0 <= p < q < queues.len() implies (#[trigger] queues[p]).node@
        != (#[trigger] queues[q]).node@ by {
        assert(names[p] == queues[p].node@ && names[q] == queues[q].node@);
    }
}

pub open spec fn by_position<T>() -> spec_fn((i64, T)) -> int {
    |p: (i64, T)| p.0 as int
}

/// The results, each with the position of its command, in the order of the configuration, whichever
/// came first.
pub fn in_order<T>(results: Vec<(i64, T)>) -> (r: Vec<(i64, T)>)
    ensures
        r@ == stable_sorted::<(i64, T), i64>(results@, by_position::<T>()),
{
    let mut keys: Vec<i64> = Vec::new();
    let mut i: usize = 0;
    while i < results.len()
        invariant
            i <= results@.len(),
            models(keys@) == results@.take(i as int).map_values(by_position::<T>()),
        decreases results.len() - i,
    {
        let ghost was = keys@;
        keys.push(results[i].0);
        assert(models(keys@) == models(was).push(results@[i as int].0 as int));
        assert(results@.take(i + 1).map_values(by_position::<T>()) == results@.take(
            i as int,
        ).map_values(by_position::<T>()).push(results@[i as int].0 as int));
        i += 1;
    }
    assert(results@.take(i as int) == results@);
    sort_by_keys(results, &keys, Ghost(by_position::<T>()))
}

/// How much of an output is still kept.
#[derive(Clone, Copy, Debug, PartialEq, Eq, Structural)]
pub struct Cap {
    pub limit: u64,
    pub written: u64,
    pub truncated: bool,
}

impl Cap {
    pub fn new(limit: u64) -> (r: Cap)
        ensures
            r == (Cap { limit, written: 0, truncated: false }),
    {
        Cap { limit, written: 0, truncated: false }
    }

    /// No more was written than may be.
    pub open spec fn holds(self) -> bool {
        self.written <= self.limit
    }

    /// How many of the next `count` bytes are kept.
    pub open spec fn room(self, count: int) -> int {
        if self.limit - self.written < count {
            self.limit - self.written
        } else {
            count
        }
    }

    /// Takes the next `count` bytes: how many of them are kept.
    pub fn accept(&mut self, count: usize) -> (r: usize)
        requires
            old(self).holds(),
        ensures
            r == old(self).room(count as int),
            final(self).holds(),
            *final(self) == (Cap {
                limit: old(self).limit,
                written: (old(self).written + r) as u64,
                truncated: old(self).truncated || r < count,
            }),
    {
        let remaining: u64 = self.limit - self.written;
        let accepted: usize = if remaining < count as u64 {
            remaining as usize
        } else {
            count
        };
        self.written = self.written + accepted as u64;
        if accepted < count {
            self.truncated = true;
        }
        accepted
    }
}

/// What is kept of chunks of these sizes, and whether anything was left out.
pub open spec fn capped(limit: nat, chunks: Seq<nat>) -> (nat, bool)
    decreases chunks.len(),
{
    if chunks.len() == 0 {
        (0, false)
    } else {
        let (written, truncated) = capped(limit, chunks.drop_last());
        let room = if limit - written < chunks.last() {
            (limit - written) as nat
        } else {
            chunks.last()
        };
        (written + room, truncated || room < chunks.last())
    }
}

pub open spec fn size(chunks: Seq<nat>) -> nat
    decreases chunks.len(),
{
    if chunks.len() == 0 {
        0
    } else {
        size(chunks.drop_last()) + chunks.last()
    }
}

/// However an output is cut into chunks, exactly its first `limit` bytes are kept, and it counts as
/// truncated exactly if there were more.
pub proof fn the_cap_is_exact(limit: nat, chunks: Seq<nat>)
    ensures
        capped(limit, chunks).0 == (if size(chunks) < limit {
            size(chunks)
        } else {
            limit
        }),
        capped(limit, chunks).1 == (size(chunks) > limit),
    decreases chunks.len(),
{
    if chunks.len() > 0 {
        the_cap_is_exact(limit, chunks.drop_last());
    }
}

} // verus!
