use vstd::prelude::*;

use std::collections::HashSet;

use crate::config::{GitLabLaunchConfig, GitLabRunnerInstance};
use crate::gitlab_wrap::Job;
use crate::matcher::{best_match_of, find_match};
use crate::name_map::NameMap;

verus! {

broadcast use vstd::std_specs::hash::group_hash_axioms;

/// The ids of the jobs that were dispatched successfully during this run.
/// It only grows.
pub struct SuccessfulJobIdSet {
    ids: HashSet<u64>,
}

impl SuccessfulJobIdSet {
    pub closed spec fn view(&self) -> Set<u64> {
        self.ids@
    }

    pub fn new() -> (r: Self)
        ensures
            r@ == Set::<u64>::empty(),
    {
        SuccessfulJobIdSet { ids: HashSet::new() }
    }

    pub fn contains(&self, id: u64) -> (r: bool)
        ensures
            r == self@.contains(id),
    {
        self.ids.contains(&id)
    }

    /// Adds the ids of a cycle's successful batches.
    pub fn record(&mut self, ids: &Vec<u64>)
        ensures
            final(self)@ == old(self)@.union(ids@.to_set()),
    {
        let mut i: usize = 0;
        while i < ids.len()
            invariant
                i <= ids@.len(),
                self@ == old(self)@.union(ids@.subrange(0, i as int).to_set()),
            decreases ids@.len() - i,
        {
            self.ids.insert(ids[i]);
            proof {
                assert(ids@.subrange(0, i + 1) == ids@.subrange(0, i as int).push(ids@[i as int]));
                ids@.subrange(0, i as int).lemma_push_to_set_commute(ids@[i as int]);
            }
            i += 1;
        }
        assert(ids@.subrange(0, ids@.len() as int) == ids@);
    }
}

/// A pending job together with the instance chosen to serve it.
#[derive(Debug, Clone, PartialEq)]
pub struct MatchedJob {
    pub runner: String,
    pub job: Job,
}

impl MatchedJob {
    pub open spec fn view(&self) -> (Seq<char>, Job) {
        (self.runner@, self.job)
    }
}

/// The views of a sequence of matched jobs.
pub open spec fn matched_view(ms: Seq<MatchedJob>) -> Seq<(Seq<char>, Job)> {
    ms.map_values(|m: MatchedJob| m@)
}

/// The jobs of one cycle that are dispatched: in the order reported, those
/// that were not dispatched successfully before and that some instance can
/// serve, each with the instance that serves it best.
pub open spec fn matched_jobs_of(
    runners: Seq<(String, GitLabRunnerInstance)>,
    done: Set<u64>,
    jobs: Seq<Job>,
) -> Seq<(Seq<char>, Job)>
    decreases jobs.len(),
{
    if jobs.len() == 0 {
        Seq::empty()
    } else {
        let rest = matched_jobs_of(runners, done, jobs.drop_last());
        let job = jobs.last();
        if !done.contains(job.id) && best_match_of(runners, job).is_some() {
            rest.push((best_match_of(runners, job).unwrap(), job))
        } else {
            rest
        }
    }
}

/// Selects the jobs of a cycle to dispatch and the instance for each (see
/// `matched_jobs_of`).
pub fn check_jobs(
    runners: &NameMap<GitLabRunnerInstance>,
    done: &SuccessfulJobIdSet,
    jobs: Vec<Job>,
) -> (r: Vec<MatchedJob>)
    requires
        runners.wf(),
    ensures
        matched_view(r@) == matched_jobs_of(runners.entries@, done@, jobs@),
{
    let ghost all = jobs@;
    let n = jobs.len();
    let mut jobs = jobs;
    let mut r: Vec<MatchedJob> = Vec::new();
    let mut k: usize = 0;
    while jobs.len() > 0
        invariant
            k <= all.len(),
            all.len() == n,
            jobs@ == all.subrange(k as int, all.len() as int),
            matched_view(r@) == matched_jobs_of(runners.entries@, done@, all.subrange(0, k as int)),
            runners.wf(),
        decreases jobs@.len(),
    {
        let job = jobs.remove(0);
        proof {
            assert(all.subrange(0, k + 1).drop_last() == all.subrange(0, k as int));
            assert(all.subrange(0, k + 1).last() == job);
            assert(jobs@ == all.subrange(k + 1, all.len() as int));
        }
        if !done.contains(job.id) {
            match find_match(runners, &job) {
                Some(name) => {
                    let ghost before = r@;
                    r.push(MatchedJob { runner: name, job });
                    proof {
                        assert(matched_view(r@) =~= matched_view(before).push(r@.last()@));
                    }
                },
                None => {},
            }
        }
        k += 1;
    }
    proof {
        assert(all.subrange(0, all.len() as int) == all);
    }
    r
}

/// The jobs of one cycle that go to one instance.
#[derive(Debug, Clone, PartialEq)]
pub struct JobGroup {
    pub runner: String,
    pub jobs: Vec<Job>,
}

impl JobGroup {
    pub open spec fn view(&self) -> (Seq<char>, Seq<Job>) {
        (self.runner@, self.jobs@)
    }
}

/// The views of a sequence of groups.
pub open spec fn groups_view(gs: Seq<JobGroup>) -> Seq<(Seq<char>, Seq<Job>)> {
    gs.map_values(|g: JobGroup| g@)
}

/// No two groups are for the same instance.
pub open spec fn group_names_unique(gs: Seq<(Seq<char>, Seq<Job>)>) -> bool {
    forall|i: int, j: int|
        0 <= i < gs.len() && 0 <= j < gs.len() && i != j ==> #[trigger] gs[i].0 != #[trigger] gs[j].0
}

/// Adds a matched job to the group of its instance, opening that group at the
/// end when there is none yet.
pub open spec fn add_to_groups(
    gs: Seq<(Seq<char>, Seq<Job>)>,
    m: (Seq<char>, Job),
) -> Seq<(Seq<char>, Seq<Job>)> {
    if exists|k: int| 0 <= k < gs.len() && #[trigger] gs[k].0 == m.0 {
        let k = choose|k: int| 0 <= k < gs.len() && #[trigger] gs[k].0 == m.0;
        gs.update(k, (m.0, gs[k].1.push(m.1)))
    } else {
        gs.push((m.0, seq![m.1]))
    }
}

/// Matched jobs grouped by instance: groups in the order in which their
/// instance first occurs, jobs within a group in the order in which they were matched.
pub open spec fn groups_of(ms: Seq<(Seq<char>, Job)>) -> Seq<(Seq<char>, Seq<Job>)>
    decreases ms.len(),
{
    if ms.len() == 0 {
        Seq::empty()
    } else {
        add_to_groups(groups_of(ms.drop_last()), ms.last())
    }
}

/// Groups matched jobs by instance (see `groups_of`).
pub fn group_matched_jobs(matched: Vec<MatchedJob>) -> (r: Vec<JobGroup>)
    ensures
        groups_view(r@) == groups_of(matched_view(matched@)),
        group_names_unique(groups_view(r@)),
{
    let ghost all = matched_view(matched@);
    let n = matched.len();
    let mut matched = matched;
    let mut r: Vec<JobGroup> = Vec::new();
    let mut k: usize = 0;
    while matched.len() > 0
        invariant
            k <= n,
            all.len() == n,
            matched_view(matched@) == all.subrange(k as int, n as int),
            groups_view(r@) == groups_of(all.subrange(0, k as int)),
            group_names_unique(groups_view(r@)),
        decreases matched@.len(),
    {
        let ghost before = matched@;
        let m = matched.remove(0);
        let ghost gv = groups_view(r@);
        proof {
            assert(matched_view(before).len() == before.len());
            assert(matched_view(before)[0] == before[0]@);
            assert(all.subrange(0, k + 1).drop_last() == all.subrange(0, k as int));
            assert(before[0]@ == all[k as int]);
            assert(all.subrange(0, k + 1).last() == m@);
            assert forall|q: int| 0 <= q < matched@.len() implies matched_view(matched@)[q] == all[k + 1 + q] by {
                assert(matched@[q] == before[q + 1]);
                assert(matched_view(before)[q + 1] == before[q + 1]@);
            }
            assert(matched_view(matched@) =~= all.subrange(k + 1, n as int));
        }
        let mut j: usize = 0;
        while j < r.len() && !crate::text::str_equal(r[j].runner.as_str(), m.runner.as_str())
            invariant
                j <= r@.len(),
                gv == groups_view(r@),
                forall|q: int| 0 <= q < j ==> (#[trigger] gv[q]).0 != m.runner@,
            decreases r@.len() - j,
        {
            j += 1;
        }
        if j < r.len() {
            assert(gv[j as int].0 == m.runner@);
            let mut g = r.remove(j);
            let MatchedJob { runner, job } = m;
            g.jobs.push(job);
            r.insert(j, g);
            proof {
                let c = choose|c: int| 0 <= c < gv.len() && #[trigger] gv[c].0 == runner@;
                assert(c == j);
                assert(groups_view(r@) =~= gv.update(j as int, (runner@, gv[j as int].1.push(job))));
            }
        } else {
            let MatchedJob { runner, job } = m;
            let mut jobs: Vec<Job> = Vec::new();
            jobs.push(job);
            r.push(JobGroup { runner, jobs });
            proof {
                assert(jobs@ =~= seq![job]);
                assert(groups_view(r@) =~= gv.push((runner@, seq![job])));
            }
        }
        k += 1;
    }
    proof {
        assert(all.subrange(0, n as int) == all);
    }
    r
}

/// Launch rank of an instance: its priority plus one, or zero for an
/// instance without priority. Higher ranks launch first.
pub open spec fn launch_rank(runners: Map<Seq<char>, GitLabRunnerInstance>, name: Seq<char>) -> int {
    if runners.contains_key(name) {
        match runners[name].launch_priority {
            Some(p) => p + 1,
            None => 0,
        }
    } else {
        0
    }
}

/// Inserts a group into a sequence ordered by descending rank, after every
/// group of the same or a higher rank.
pub open spec fn insert_by_rank(
    runners: Map<Seq<char>, GitLabRunnerInstance>,
    s: Seq<(Seq<char>, Seq<Job>)>,
    g: (Seq<char>, Seq<Job>),
) -> Seq<(Seq<char>, Seq<Job>)>
    decreases s.len(),
{
    if s.len() == 0 {
        seq![g]
    } else if launch_rank(runners, s.last().0) >= launch_rank(runners, g.0) {
        s.push(g)
    } else {
        insert_by_rank(runners, s.drop_last(), g).push(s.last())
    }
}

/// Groups ordered by descending launch rank; groups of equal rank keep their
/// relative order.
pub open spec fn by_priority(
    runners: Map<Seq<char>, GitLabRunnerInstance>,
    gs: Seq<(Seq<char>, Seq<Job>)>,
) -> Seq<(Seq<char>, Seq<Job>)>
    decreases gs.len(),
{
    if gs.len() == 0 {
        Seq::empty()
    } else {
        insert_by_rank(runners, by_priority(runners, gs.drop_last()), gs.last())
    }
}

/// Launch ranks do not increase along `s`.
pub open spec fn ranks_descending(
    runners: Map<Seq<char>, GitLabRunnerInstance>,
    s: Seq<(Seq<char>, Seq<Job>)>,
) -> bool {
    forall|i: int, j: int|
        0 <= i < j < s.len() ==> launch_rank(runners, #[trigger] s[i].0) >= launch_rank(
            runners,
            #[trigger] s[j].0,
        )
}

proof fn lemma_insert_by_rank_at(
    runners: Map<Seq<char>, GitLabRunnerInstance>,
    s: Seq<(Seq<char>, Seq<Job>)>,
    g: (Seq<char>, Seq<Job>),
    p: int,
)
    requires
        0 <= p <= s.len(),
        forall|q: int| p <= q < s.len() ==> launch_rank(runners, (#[trigger] s[q]).0) < launch_rank(runners, g.0),
        p == 0 || launch_rank(runners, s[p - 1].0) >= launch_rank(runners, g.0),
    ensures
        insert_by_rank(runners, s, g) == s.insert(p, g),
    decreases s.len(),
{
    if s.len() == 0 {
        assert(s.insert(p, g) =~= seq![g]);
    } else if p == s.len() {
        assert(s.insert(p, g) =~= s.push(g));
    } else {
        let t = s.drop_last();
        assert forall|q: int| p <= q < t.len() implies launch_rank(runners, (#[trigger] t[q]).0) < launch_rank(runners, g.0) by {
            assert(t[q] == s[q]);
        }
        if p > 0 {
            assert(t[p - 1] == s[p - 1]);
        }
        lemma_insert_by_rank_at(runners, t, g, p);
        assert(s.insert(p, g) =~= t.insert(p, g).push(s.last()));
    }
}

/// The launch rank of an instance (see `launch_rank`).
pub fn launch_rank_of(runners: &NameMap<GitLabRunnerInstance>, name: &String) -> (r: u64)
    requires
        runners.wf(),
    ensures
        r == launch_rank(runners@, name@),
{
    match runners.get(name.as_str()) {
        Some(instance) => match instance.launch_priority {
            Some(p) => p as u64 + 1,
            None => 0,
        },
        None => 0,
    }
}

/// Orders groups by descending launch priority, groups of instances without
/// priority last, keeping the relative order of groups of equal rank.
pub fn order_by_priority(runners: &NameMap<GitLabRunnerInstance>, groups: Vec<JobGroup>) -> (r: Vec<JobGroup>)
    requires
        runners.wf(),
    ensures
        groups_view(r@) == by_priority(runners@, groups_view(groups@)),
        ranks_descending(runners@, groups_view(r@)),
{
    let ghost all = groups_view(groups@);
    let n = groups.len();
    let mut groups = groups;
    let mut r: Vec<JobGroup> = Vec::new();
    let mut k: usize = 0;
    while groups.len() > 0
        invariant
            k <= n,
            all.len() == n,
            runners.wf(),
            groups_view(groups@) == all.subrange(k as int, n as int),
            groups_view(r@) == by_priority(runners@, all.subrange(0, k as int)),
            ranks_descending(runners@, groups_view(r@)),
        decreases groups@.len(),
    {
        let ghost before = groups@;
        let g = groups.remove(0);
        proof {
            assert(groups_view(before).len() == before.len());
            assert(groups_view(before)[0] == before[0]@);
            assert(all.subrange(0, k + 1).drop_last() == all.subrange(0, k as int));
            assert(before[0]@ == all[k as int]);
            assert(all.subrange(0, k + 1).last() == g@);
            assert forall|q: int| 0 <= q < groups@.len() implies groups_view(groups@)[q] == all[k + 1 + q] by {
                assert(groups@[q] == before[q + 1]);
                assert(groups_view(before)[q + 1] == before[q + 1]@);
            }
            assert(groups_view(groups@) =~= all.subrange(k + 1, n as int));
        }
        let rank = launch_rank_of(runners, &g.runner);
        let mut p: usize = r.len();
        while p > 0 && launch_rank_of(runners, &r[p - 1].runner) < rank
            invariant
                p <= r@.len(),
                runners.wf(),
                rank == launch_rank(runners@, g.runner@),
                forall|q: int| p <= q < r@.len() ==> launch_rank(runners@, (#[trigger] r@[q]).runner@) < rank,
            decreases p,
        {
            p -= 1;
        }
        let ghost rv = groups_view(r@);
        proof {
            assert forall|q: int| p <= q < rv.len() implies launch_rank(runners@, (#[trigger] rv[q]).0) < launch_rank(runners@, g@.0) by {
                assert(rv[q].0 == r@[q].runner@);
            }
            if p > 0 {
                assert(rv[p - 1].0 == r@[p - 1].runner@);
            }
            lemma_insert_by_rank_at(runners@, rv, g@, p as int);
        }
        r.insert(p, g);
        proof {
            let nv = groups_view(r@);
            assert(nv =~= rv.insert(p as int, g@));
            assert forall|i: int, j: int| 0 <= i < j < nv.len() implies launch_rank(runners@, #[trigger] nv[i].0) >= launch_rank(
                runners@,
                #[trigger] nv[j].0,
            ) by {
                if i < p && j < p {
                    assert(nv[i] == rv[i] && nv[j] == rv[j]);
                } else if i < p && j == p {
                    assert(nv[i] == rv[i]);
                    assert(launch_rank(runners@, rv[p - 1].0) >= launch_rank(runners@, g@.0));
                    assert(launch_rank(runners@, rv[i].0) >= launch_rank(runners@, rv[p - 1].0));
                } else if i < p {
                    assert(nv[i] == rv[i] && nv[j] == rv[j - 1]);
                } else if i == p {
                    assert(nv[j] == rv[j - 1]);
                } else {
                    assert(nv[i] == rv[i - 1] && nv[j] == rv[j - 1]);
                }
            }
        }
        k += 1;
    }
    proof {
        assert(all.subrange(0, n as int) == all);
    }
    r
}

/// The jobs that one process launch serves, all on one instance.
#[derive(Debug, Clone, PartialEq)]
pub struct LaunchBatch {
    pub runner: String,
    pub jobs: Vec<Job>,
}

impl LaunchBatch {
    pub open spec fn view(&self) -> (Seq<char>, Seq<Job>) {
        (self.runner@, self.jobs@)
    }
}

/// The views of a sequence of batches.
pub open spec fn batches_view(bs: Seq<LaunchBatch>) -> Seq<(Seq<char>, Seq<Job>)> {
    bs.map_values(|b: LaunchBatch| b@)
}

/// A group's jobs cut, in order, into batches of `size` jobs; the last batch
/// may be smaller.
pub open spec fn chunks_of(runner: Seq<char>, jobs: Seq<Job>, size: nat) -> Seq<(Seq<char>, Seq<Job>)>
    decreases jobs.len(),
{
    if jobs.len() == 0 || size == 0 {
        Seq::empty()
    } else if jobs.len() <= size {
        seq![(runner, jobs)]
    } else {
        seq![(runner, jobs.take(size as int))] + chunks_of(runner, jobs.skip(size as int), size)
    }
}

/// The batches of a sequence of groups, group after group.
pub open spec fn batches_of(gs: Seq<(Seq<char>, Seq<Job>)>, size: nat) -> Seq<(Seq<char>, Seq<Job>)>
    decreases gs.len(),
{
    if gs.len() == 0 {
        Seq::empty()
    } else {
        batches_of(gs.drop_last(), size) + chunks_of(gs.last().0, gs.last().1, size)
    }
}

/// Every batch of a group holds between one and `size` jobs, and all but the
/// last hold exactly `size`.
pub proof fn lemma_chunk_sizes(runner: Seq<char>, jobs: Seq<Job>, size: nat)
    requires
        size > 0,
    ensures
        forall|k: int|
            0 <= k < chunks_of(runner, jobs, size).len() ==> 0 < (#[trigger] chunks_of(runner, jobs, size)[k]).1.len() <= size,
        forall|k: int|
            0 <= k < chunks_of(runner, jobs, size).len() - 1 ==> (#[trigger] chunks_of(runner, jobs, size)[k]).1.len() == size,
    decreases jobs.len(),
{
    if jobs.len() > size {
        lemma_chunk_sizes(runner, jobs.skip(size as int), size);
        let c = chunks_of(runner, jobs, size);
        let t = chunks_of(runner, jobs.skip(size as int), size);
        assert forall|k: int| 0 < k < c.len() implies c[k] == t[k - 1] by {}
    }
}

/// Moves the first `count` jobs of `jobs` into a new list.
fn take_front(jobs: &mut Vec<Job>, count: usize) -> (r: Vec<Job>)
    requires
        count <= old(jobs)@.len(),
    ensures
        r@ == old(jobs)@.take(count as int),
        final(jobs)@ == old(jobs)@.skip(count as int),
{
    let ghost all = jobs@;
    let mut r: Vec<Job> = Vec::new();
    let mut i: usize = 0;
    while i < count
        invariant
            i <= count,
            count <= all.len(),
            r@ == all.take(i as int),
            jobs@ == all.skip(i as int),
        decreases count - i,
    {
        let ghost before = jobs@;
        let job = jobs.remove(0);
        r.push(job);
        proof {
            assert(r@ =~= all.take(i + 1));
            assert(jobs@ =~= all.skip(i + 1));
        }
        i += 1;
    }
    r
}

/// Cuts one group's jobs into batches of `group_size` (see `chunks_of`).
pub fn chunk_group(runner: &String, jobs: Vec<Job>, group_size: usize) -> (r: Vec<LaunchBatch>)
    requires
        group_size > 0,
    ensures
        batches_view(r@) == chunks_of(runner@, jobs@, group_size as nat),
{
    let ghost all = jobs@;
    let mut jobs = jobs;
    let mut r: Vec<LaunchBatch> = Vec::new();
    while jobs.len() > 0
        invariant
            group_size > 0,
            batches_view(r@) + chunks_of(runner@, jobs@, group_size as nat) == chunks_of(runner@, all, group_size as nat),
        decreases jobs@.len(),
    {
        let ghost rest = jobs@;
        let count = if jobs.len() < group_size { jobs.len() } else { group_size };
        let batch = take_front(&mut jobs, count);
        let ghost before = r@;
        r.push(LaunchBatch { runner: runner.clone(), jobs: batch });
        proof {
            if rest.len() <= group_size {
                assert(rest.take(count as int) =~= rest);
                assert(jobs@.len() == 0);
            }
            assert(batches_view(r@) =~= batches_view(before).push((runner@, rest.take(count as int))));
            assert(batches_view(r@) + chunks_of(runner@, jobs@, group_size as nat) =~= batches_view(before) + chunks_of(runner@, rest, group_size as nat));
        }
    }
    proof {
        assert(batches_view(r@) + chunks_of(runner@, jobs@, group_size as nat) =~= batches_view(r@));
    }
    r
}

/// The batches of all groups, group after group (see `batches_of`).
pub fn plan_batches(groups: Vec<JobGroup>, group_size: usize) -> (r: Vec<LaunchBatch>)
    requires
        group_size > 0,
    ensures
        batches_view(r@) == batches_of(groups_view(groups@), group_size as nat),
{
    let ghost all = groups_view(groups@);
    let n = groups.len();
    let mut groups = groups;
    let mut r: Vec<LaunchBatch> = Vec::new();
    let mut k: usize = 0;
    while groups.len() > 0
        invariant
            k <= n,
            all.len() == n,
            group_size > 0,
            groups_view(groups@) == all.subrange(k as int, n as int),
            batches_view(r@) == batches_of(all.subrange(0, k as int), group_size as nat),
        decreases groups@.len(),
    {
        let ghost before = groups@;
        let g = groups.remove(0);
        proof {
            assert(groups_view(before).len() == before.len());
            assert(groups_view(before)[0] == before[0]@);
            assert(all.subrange(0, k + 1).drop_last() == all.subrange(0, k as int));
            assert(all.subrange(0, k + 1).last() == g@);
            assert forall|q: int| 0 <= q < groups@.len() implies groups_view(groups@)[q] == all[k + 1 + q] by {
                assert(groups@[q] == before[q + 1]);
                assert(groups_view(before)[q + 1] == before[q + 1]@);
            }
            assert(groups_view(groups@) =~= all.subrange(k + 1, n as int));
        }
        let JobGroup { runner, jobs } = g;
        let mut batches = chunk_group(&runner, jobs, group_size);
        let ghost prev = r@;
        let ghost added = batches@;
        r.append(&mut batches);
        proof {
            assert(batches_view(r@) =~= batches_view(prev) + batches_view(added));
        }
        k += 1;
    }
    proof {
        assert(all.subrange(0, n as int) == all);
    }
    r
}

/// The ids of a sequence of jobs.
pub open spec fn job_ids(jobs: Seq<Job>) -> Seq<u64> {
    jobs.map_values(|j: Job| j.id)
}

/// The ids of the jobs of the batches whose launch succeeded, in batch order.
/// A batch's verdict covers all of its jobs.
pub open spec fn succeeded_ids(batches: Seq<(Seq<char>, Seq<Job>)>, verdicts: Seq<bool>) -> Seq<u64>
    decreases batches.len(),
{
    if batches.len() == 0 {
        Seq::empty()
    } else {
        let rest = succeeded_ids(batches.drop_last(), verdicts.drop_last());
        if verdicts.last() {
            rest + job_ids(batches.last().1)
        } else {
            rest
        }
    }
}

/// The positions of the batches whose launch failed, in order.
pub open spec fn failed_positions(verdicts: Seq<bool>) -> Seq<usize>
    decreases verdicts.len(),
{
    if verdicts.len() == 0 {
        Seq::empty()
    } else {
        let rest = failed_positions(verdicts.drop_last());
        if verdicts.last() {
            rest
        } else {
            rest.push((verdicts.len() - 1) as usize)
        }
    }
}

/// The outcome of one cycle's launches: the ids of the jobs whose batch
/// succeeded and the positions of the batches that failed.
#[derive(Debug, Clone, PartialEq)]
pub struct BatchOutcomes {
    pub successful: Vec<u64>,
    pub failed: Vec<usize>,
}

/// Splits a cycle's batches by the verdict of their launch; `verdicts[k]` is
/// whether the process of batch `k` succeeded.
pub fn partition_outcomes(batches: &Vec<LaunchBatch>, verdicts: &Vec<bool>) -> (r: BatchOutcomes)
    requires
        batches@.len() == verdicts@.len(),
    ensures
        r.successful@ == succeeded_ids(batches_view(batches@), verdicts@),
        r.failed@ == failed_positions(verdicts@),
{
    let ghost bv = batches_view(batches@);
    let mut successful: Vec<u64> = Vec::new();
    let mut failed: Vec<usize> = Vec::new();
    let mut i: usize = 0;
    while i < batches.len()
        invariant
            i <= batches@.len(),
            batches@.len() == verdicts@.len(),
            bv == batches_view(batches@),
            successful@ == succeeded_ids(bv.take(i as int), verdicts@.take(i as int)),
            failed@ == failed_positions(verdicts@.take(i as int)),
        decreases batches@.len() - i,
    {
        proof {
            assert(bv.take(i + 1).drop_last() == bv.take(i as int));
            assert(verdicts@.take(i + 1).drop_last() == verdicts@.take(i as int));
            assert(bv[i as int] == batches@[i as int]@);
        }
        if verdicts[i] {
            let jobs = &batches[i].jobs;
            let ghost base = successful@;
            let mut j: usize = 0;
            while j < jobs.len()
                invariant
                    j <= jobs@.len(),
                    successful@ == base + job_ids(jobs@.take(j as int)),
                decreases jobs@.len() - j,
            {
                successful.push(jobs[j].id);
                proof {
                    assert(job_ids(jobs@.take(j + 1)) =~= job_ids(jobs@.take(j as int)).push(jobs@[j as int].id));
                }
                j += 1;
            }
            proof {
                assert(jobs@.take(jobs@.len() as int) == jobs@);
            }
        } else {
            failed.push(i);
        }
        i += 1;
    }
    proof {
        assert(bv.take(batches@.len() as int) == bv);
        assert(verdicts@.take(batches@.len() as int) == verdicts@);
    }
    BatchOutcomes { successful, failed }
}

/// Decides one dispatch cycle: the pending jobs not dispatched before are
/// matched to instances, grouped by instance, the groups put in launch
/// order, and each group cut into batches of `group_size`.
pub fn plan_cycle(
    runners: &NameMap<GitLabRunnerInstance>,
    done: &SuccessfulJobIdSet,
    jobs: Vec<Job>,
    group_size: usize,
) -> (r: Vec<LaunchBatch>)
    requires
        runners.wf(),
        group_size > 0,
    ensures
        batches_view(r@) == batches_of(
            by_priority(runners@, groups_of(matched_jobs_of(runners.entries@, done@, jobs@))),
            group_size as nat,
        ),
{
    let matched = check_jobs(runners, done, jobs);
    let groups = group_matched_jobs(matched);
    let ordered = order_by_priority(runners, groups);
    plan_batches(ordered, group_size)
}

/// A job id that is in the successful set is never selected again, whatever
/// the platform reports as pending, and it stays in the set when later
/// cycles record their successes.
pub proof fn lemma_dispatched_once(
    runners: Seq<(String, GitLabRunnerInstance)>,
    done: Set<u64>,
    jobs: Seq<Job>,
    id: u64,
    later: Seq<u64>,
)
    requires
        done.contains(id),
    ensures
        forall|i: int|
            0 <= i < matched_jobs_of(runners, done, jobs).len() ==> (#[trigger] matched_jobs_of(runners, done, jobs)[i]).1.id != id,
        done.union(later.to_set()).contains(id),
    decreases jobs.len(),
{
    if jobs.len() > 0 {
        lemma_dispatched_once(runners, done, jobs.drop_last(), id, later);
        let m = matched_jobs_of(runners, done, jobs);
        let rest = matched_jobs_of(runners, done, jobs.drop_last());
        assert forall|i: int| 0 <= i < m.len() implies (#[trigger] m[i]).1.id != id by {
            if i < rest.len() {
                assert(m[i] == rest[i]);
            } else {
                assert(m[i].1 == jobs.last());
            }
        }
    }
}

/// A batch's verdict applies to all of its jobs: when its launch succeeded
/// every one of its ids is reported successful; when it failed none is,
/// unless the id also belongs to another batch that succeeded.
pub proof fn lemma_batch_atomicity(batches: Seq<(Seq<char>, Seq<Job>)>, verdicts: Seq<bool>, k: int)
    requires
        batches.len() == verdicts.len(),
        0 <= k < batches.len(),
    ensures
        verdicts[k] ==> forall|j: int|
            0 <= j < batches[k].1.len() ==> succeeded_ids(batches, verdicts).contains(
                (#[trigger] batches[k].1[j]).id,
            ),
        !verdicts[k] ==> forall|j: int|
            0 <= j < batches[k].1.len() ==> (succeeded_ids(batches, verdicts).contains(
                (#[trigger] batches[k].1[j]).id,
            ) ==> exists|b: int|
                0 <= b < batches.len() && b != k && verdicts[b] && job_ids(batches[b].1).contains(
                    batches[k].1[j].id,
                )),
    decreases batches.len(),
{
    let n = batches.len();
    let rest = succeeded_ids(batches.drop_last(), verdicts.drop_last());
    let last_ids = job_ids(batches.last().1);
    if k < n - 1 {
        lemma_batch_atomicity(batches.drop_last(), verdicts.drop_last(), k);
        assert(batches.drop_last()[k] == batches[k]);
        assert(verdicts.drop_last()[k] == verdicts[k]);
        if verdicts[k] {
            assert forall|j: int| 0 <= j < batches[k].1.len() implies succeeded_ids(batches, verdicts).contains(
                (#[trigger] batches[k].1[j]).id,
            ) by {
                assert(rest.contains(batches[k].1[j].id));
                let w = choose|w: int| 0 <= w < rest.len() && rest[w] == batches[k].1[j].id;
                if verdicts.last() {
                    assert((rest + last_ids)[w] == rest[w]);
                }
            }
        } else {
            assert forall|j: int| 0 <= j < batches[k].1.len() implies (succeeded_ids(batches, verdicts).contains(
                (#[trigger] batches[k].1[j]).id,
            ) ==> exists|b: int|
                0 <= b < batches.len() && b != k && verdicts[b] && job_ids(batches[b].1).contains(
                    batches[k].1[j].id,
                )) by {
                let id = batches[k].1[j].id;
                if succeeded_ids(batches, verdicts).contains(id) {
                    let w = choose|w: int| 0 <= w < succeeded_ids(batches, verdicts).len() && succeeded_ids(batches, verdicts)[w] == id;
                    if verdicts.last() && w >= rest.len() {
                        assert(last_ids[w - rest.len()] == id);
                        assert(job_ids(batches[n - 1].1).contains(id));
                    } else {
                        assert(rest[w] == id);
                        assert(rest.contains(id));
                        let b = choose|b: int|
                            0 <= b < batches.drop_last().len() && b != k && verdicts.drop_last()[b] && job_ids(batches.drop_last()[b].1).contains(id);
                        assert(batches.drop_last()[b] == batches[b]);
                    }
                }
            }
        }
    } else {
        if verdicts[k] {
            assert forall|j: int| 0 <= j < batches[k].1.len() implies succeeded_ids(batches, verdicts).contains(
                (#[trigger] batches[k].1[j]).id,
            ) by {
                assert(last_ids[j] == batches[k].1[j].id);
                assert((rest + last_ids)[rest.len() + j] == last_ids[j]);
            }
        } else {
            assert forall|j: int| 0 <= j < batches[k].1.len() implies (succeeded_ids(batches, verdicts).contains(
                (#[trigger] batches[k].1[j]).id,
            ) ==> exists|b: int|
                0 <= b < batches.len() && b != k && verdicts[b] && job_ids(batches[b].1).contains(
                    batches[k].1[j].id,
                )) by {
                let id = batches[k].1[j].id;
                if succeeded_ids(batches, verdicts).contains(id) {
                    lemma_succeeded_from_some_batch(batches.drop_last(), verdicts.drop_last(), id);
                    let b = choose|b: int|
                        0 <= b < batches.drop_last().len() && verdicts.drop_last()[b] && job_ids(batches.drop_last()[b].1).contains(id);
                    assert(batches.drop_last()[b] == batches[b]);
                }
            }
        }
    }
}

proof fn lemma_succeeded_from_some_batch(batches: Seq<(Seq<char>, Seq<Job>)>, verdicts: Seq<bool>, id: u64)
    requires
        batches.len() == verdicts.len(),
        succeeded_ids(batches, verdicts).contains(id),
    ensures
        exists|b: int| 0 <= b < batches.len() && verdicts[b] && job_ids(batches[b].1).contains(id),
    decreases batches.len(),
{
    let n = batches.len();
    let rest = succeeded_ids(batches.drop_last(), verdicts.drop_last());
    let w = choose|w: int| 0 <= w < succeeded_ids(batches, verdicts).len() && succeeded_ids(batches, verdicts)[w] == id;
    if verdicts.last() && w >= rest.len() {
        assert(job_ids(batches.last().1)[w - rest.len()] == id);
        assert(job_ids(batches[n - 1].1).contains(id));
    } else {
        assert(rest[w] == id);
        lemma_succeeded_from_some_batch(batches.drop_last(), verdicts.drop_last(), id);
        let b = choose|b: int| 0 <= b < n - 1 && verdicts.drop_last()[b] && job_ids(batches.drop_last()[b].1).contains(id);
        assert(batches.drop_last()[b] == batches[b]);
    }
}

/// Seconds that one launch may take: the configured timeout, else the
/// largest 32-bit count.
pub fn launch_timeout_secs(config: &GitLabLaunchConfig) -> (r: u64)
    ensures
        r == match config.timeout {
            Some(t) => t as u64,
            None => u32::MAX as u64,
        },
{
    match config.timeout {
        Some(t) => t as u64,
        None => u32::MAX as u64,
    }
}

/// Why the launch of one batch failed.
#[derive(Debug, Clone, PartialEq)]
pub enum LaunchError {
    /// The process could not be started.
    SpawnFailed(String),
    /// Writing its input or reading its output failed.
    Io(String),
    /// It did not finish in time and was killed.
    Timeout,
    /// It exited with a failure status; its output is kept for diagnostics.
    NonZeroExit { status: String, stdout: String, stderr: String },
}

/// What happens to the dispatch loop.
#[derive(Debug, Clone, PartialEq)]
pub enum PollEvent {
    /// The poll interval elapsed.
    Tick,
    /// Shutdown was requested.
    Cancelled,
    /// A cycle completed; these job ids were dispatched successfully.
    CycleSucceeded(Vec<u64>),
    /// A cycle failed before it could report its successes.
    CycleFailed,
    /// A cycle exceeded its deadline and was abandoned.
    CycleTimedOut,
}

/// What the dispatch loop does next.
#[derive(Debug, Clone, Copy, PartialEq, Eq, Structural)]
pub enum PollAction {
    /// Run one fetch, match and dispatch cycle.
    RunCycle,
    /// Wait for the next event.
    Wait,
    /// Leave the loop.
    Stop,
}

/// The state of the dispatch loop: the jobs dispatched successfully so far,
/// whether a cycle is in flight, and whether the loop has stopped.
pub struct PollState {
    pub successful: SuccessfulJobIdSet,
    pub in_cycle: bool,
    pub stopped: bool,
}

impl PollState {
    pub fn new() -> (r: Self)
        ensures
            r.successful@ == Set::<u64>::empty(),
            !r.in_cycle,
            !r.stopped,
    {
        PollState { successful: SuccessfulJobIdSet::new(), in_cycle: false, stopped: false }
    }

    /// Advances the loop by one event. A tick starts a cycle only while the
    /// loop is idle; cancellation is honoured only while idle, so a cycle in
    /// flight always completes first; a completed cycle adds its successes,
    /// and a failed or abandoned one adds nothing.
    pub fn on_event(&mut self, event: PollEvent) -> (r: PollAction)
        ensures
            old(self).stopped ==> r == PollAction::Stop && final(self).stopped && final(self).successful@ == old(self).successful@,
            !old(self).stopped ==> match event {
                PollEvent::Tick => if old(self).in_cycle {
                    r == PollAction::Wait && final(self).in_cycle
                } else {
                    r == PollAction::RunCycle && final(self).in_cycle
                },
                PollEvent::Cancelled => if old(self).in_cycle {
                    r == PollAction::Wait && final(self).in_cycle && !final(self).stopped
                } else {
                    r == PollAction::Stop && final(self).stopped && !final(self).in_cycle
                },
                PollEvent::CycleSucceeded(ids) => r == PollAction::Wait && !final(self).in_cycle
                    && !final(self).stopped && final(self).successful@ == if old(self).in_cycle {
                    old(self).successful@.union(ids@.to_set())
                } else {
                    old(self).successful@
                },
                _ => r == PollAction::Wait && !final(self).in_cycle && !final(self).stopped,
            },
            !old(self).stopped && !(event is CycleSucceeded) ==> final(self).successful@ == old(self).successful@,
            !old(self).stopped && !(event is Cancelled) ==> !final(self).stopped,
    {
        if self.stopped {
            return PollAction::Stop;
        }
        match event {
            PollEvent::Tick => {
                if self.in_cycle {
                    PollAction::Wait
                } else {
                    self.in_cycle = true;
                    PollAction::RunCycle
                }
            },
            PollEvent::Cancelled => {
                if self.in_cycle {
                    PollAction::Wait
                } else {
                    self.stopped = true;
                    PollAction::Stop
                }
            },
            PollEvent::CycleSucceeded(ids) => {
                if self.in_cycle {
                    self.successful.record(&ids);
                }
                self.in_cycle = false;
                PollAction::Wait
            },
            _ => {
                self.in_cycle = false;
                PollAction::Wait
            },
        }
    }
}

} // verus!
