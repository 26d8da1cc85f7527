use vstd::prelude::*;

use crate::config::GitLabRunnerInstance;
use crate::gitlab_wrap::Job;
use crate::name_map::NameMap;

verus! {

/// Whether `tags` holds the tag `t`.
pub open spec fn has_tag(tags: Seq<String>, t: Seq<char>) -> bool {
    exists|i: int| 0 <= i < tags.len() && (#[trigger] tags[i])@ == t
}

/// Every requested tag is available.
pub open spec fn tags_cover(available: Seq<String>, requested: Seq<String>) -> bool {
    forall|i: int| 0 <= i < requested.len() ==> has_tag(available, (#[trigger] requested[i])@)
}

/// An instance can serve a job when it has every tag that the job asks for.
pub open spec fn eligible(instance: GitLabRunnerInstance, job: Job) -> bool {
    tags_cover(instance.tags@, job.tags@)
}

/// `a` comes before or equals `b` in lexicographic order of characters.
pub open spec fn name_precedes(a: Seq<char>, b: Seq<char>) -> bool {
    ||| (a.len() <= b.len() && forall|j: int| 0 <= j < a.len() ==> a[j] == b[j])
    ||| exists|k: int|
        0 <= k < a.len() && k < b.len() && (forall|j: int| 0 <= j < k ==> a[j] == b[j])
            && (#[trigger] a[k] as int) < (b[k] as int)
}

/// Instance entry `a` fits a job at least as tightly as `b`: fewer tags, or
/// as many and a name that comes first.
pub open spec fn fits_before(a: (String, GitLabRunnerInstance), b: (String, GitLabRunnerInstance)) -> bool {
    ||| a.1.tags@.len() < b.1.tags@.len()
    ||| (a.1.tags@.len() == b.1.tags@.len() && name_precedes(a.0@, b.0@))
}

/// Some instance can serve the job.
pub open spec fn has_eligible(runners: Seq<(String, GitLabRunnerInstance)>, job: Job) -> bool {
    exists|i: int| 0 <= i < runners.len() && eligible((#[trigger] runners[i]).1, job)
}

/// Entry `i` is eligible for the job and fits it at least as tightly as every
/// other eligible entry.
pub open spec fn is_best_match(runners: Seq<(String, GitLabRunnerInstance)>, job: Job, i: int) -> bool {
    &&& 0 <= i < runners.len()
    &&& eligible(runners[i].1, job)
    &&& forall|j: int|
        0 <= j < runners.len() && eligible((#[trigger] runners[j]).1, job) ==> fits_before(
            runners[i],
            runners[j],
        )
}

/// The name of the instance that serves `job` best, if any instance can.
pub open spec fn best_match_of(runners: Seq<(String, GitLabRunnerInstance)>, job: Job) -> Option<Seq<char>> {
    if has_eligible(runners, job) {
        Some(runners[choose|i: int| is_best_match(runners, job, i)].0@)
    } else {
        None
    }
}

proof fn lemma_name_precedes_antisymmetric(a: Seq<char>, b: Seq<char>)
    requires
        name_precedes(a, b),
        name_precedes(b, a),
    ensures
        a == b,
{
    let pa = a.len() <= b.len() && forall|j: int| 0 <= j < a.len() ==> a[j] == b[j];
    let pb = b.len() <= a.len() && forall|j: int| 0 <= j < b.len() ==> b[j] == a[j];
    if pa && pb {
        assert(a =~= b);
    } else if pa {
        let k = choose|k: int|
            0 <= k < b.len() && k < a.len() && (forall|j: int| 0 <= j < k ==> b[j] == a[j]) && (
            #[trigger] b[k] as int) < (a[k] as int);
        assert(a[k] == b[k]);
    } else if pb {
        let k = choose|k: int|
            0 <= k < a.len() && k < b.len() && (forall|j: int| 0 <= j < k ==> a[j] == b[j]) && (
            #[trigger] a[k] as int) < (b[k] as int);
        assert(a[k] == b[k]);
    } else {
        let k1 = choose|k: int|
            0 <= k < a.len() && k < b.len() && (forall|j: int| 0 <= j < k ==> a[j] == b[j]) && (
            #[trigger] a[k] as int) < (b[k] as int);
        let k2 = choose|k: int|
            0 <= k < b.len() && k < a.len() && (forall|j: int| 0 <= j < k ==> b[j] == a[j]) && (
            #[trigger] b[k] as int) < (a[k] as int);
        if k1 < k2 {
            assert(b[k1] == a[k1]);
        } else if k2 < k1 {
            assert(a[k2] == b[k2]);
        }
    }
}

/// With unique names, at most one entry fits a job best.
pub proof fn lemma_best_match_unique(runners: Seq<(String, GitLabRunnerInstance)>, job: Job, i: int, j: int)
    requires
        crate::name_map::names_unique(runners),
        is_best_match(runners, job, i),
        is_best_match(runners, job, j),
    ensures
        i == j,
{
    assert(fits_before(runners[i], runners[j]));
    assert(fits_before(runners[j], runners[i]));
    if runners[i].1.tags@.len() == runners[j].1.tags@.len() {
        lemma_name_precedes_antisymmetric(runners[i].0@, runners[j].0@);
    }
}

proof fn lemma_name_precedes_total(a: Seq<char>, b: Seq<char>)
    ensures
        name_precedes(a, b) || name_precedes(b, a),
{
    if !(a.len() <= b.len() && forall|j: int| 0 <= j < a.len() ==> a[j] == b[j]) {
        if !(b.len() <= a.len() && forall|j: int| 0 <= j < b.len() ==> b[j] == a[j]) {
            // the two differ at some position below both lengths; take the first
            let m = if a.len() < b.len() { a.len() } else { b.len() };
            assert(exists|j: int| 0 <= j < m && a[j] != b[j]);
            let mut k: int = choose|j: int| 0 <= j < m && a[j] != b[j];
            lemma_first_difference(a, b, k);
        }
    }
}

proof fn lemma_first_difference(a: Seq<char>, b: Seq<char>, k0: int)
    requires
        0 <= k0 < a.len(),
        k0 < b.len(),
        a[k0] != b[k0],
    ensures
        name_precedes(a, b) || name_precedes(b, a),
    decreases k0,
{
    if exists|j: int| 0 <= j < k0 && a[j] != b[j] {
        let j = choose|j: int| 0 <= j < k0 && a[j] != b[j];
        lemma_first_difference(a, b, j);
    } else {
        if (a[k0] as int) < (b[k0] as int) {
            assert(name_precedes(a, b));
        } else {
            assert((a[k0] as int) != (b[k0] as int));
            assert(name_precedes(b, a));
        }
    }
}

proof fn lemma_name_precedes_transitive(a: Seq<char>, b: Seq<char>, c: Seq<char>)
    requires
        name_precedes(a, b),
        name_precedes(b, c),
    ensures
        name_precedes(a, c),
{
    let pa = a.len() <= b.len() && forall|j: int| 0 <= j < a.len() ==> a[j] == b[j];
    let pb = b.len() <= c.len() && forall|j: int| 0 <= j < b.len() ==> b[j] == c[j];
    if pa && pb {
    } else if pa {
        let k = choose|k: int|
            0 <= k < b.len() && k < c.len() && (forall|j: int| 0 <= j < k ==> b[j] == c[j]) && (
            #[trigger] b[k] as int) < (c[k] as int);
        if k >= a.len() {
            assert(forall|j: int| 0 <= j < a.len() ==> a[j] == c[j]);
        } else {
            assert(a[k] == b[k]);
        }
    } else if pb {
        let k = choose|k: int|
            0 <= k < a.len() && k < b.len() && (forall|j: int| 0 <= j < k ==> a[j] == b[j]) && (
            #[trigger] a[k] as int) < (b[k] as int);
        assert(b[k] == c[k]);
    } else {
        let k1 = choose|k: int|
            0 <= k < a.len() && k < b.len() && (forall|j: int| 0 <= j < k ==> a[j] == b[j]) && (
            #[trigger] a[k] as int) < (b[k] as int);
        let k2 = choose|k: int|
            0 <= k < b.len() && k < c.len() && (forall|j: int| 0 <= j < k ==> b[j] == c[j]) && (
            #[trigger] b[k] as int) < (c[k] as int);
        if k1 < k2 {
            assert(b[k1] == c[k1]);
        } else if k2 < k1 {
            assert(a[k2] == b[k2]);
        }
    }
}

/// Whether `a` comes before or equals `b` in lexicographic order of characters.
pub fn name_le(a: &str, b: &str) -> (r: bool)
    ensures
        r == name_precedes(a@, b@),
{
    let la = a.unicode_len();
    let lb = b.unicode_len();
    let mut i: usize = 0;
    while i < la && i < lb
        invariant
            la == a@.len(),
            lb == b@.len(),
            i <= la,
            i <= lb,
            forall|j: int| 0 <= j < i ==> a@[j] == b@[j],
        decreases la - i,
    {
        let ca = a.get_char(i);
        let cb = b.get_char(i);
        if ca != cb {
            let lt = (ca as u32) < (cb as u32);
            proof {
                if !lt {
                    assert((a@[i as int] as int) != (b@[i as int] as int));
                    assert forall|k: int|
                        0 <= k < a@.len() && k < b@.len() && (forall|j: int|
                            0 <= j < k ==> a@[j] == b@[j]) implies !((#[trigger] a@[k] as int) < (
                    b@[k] as int)) by {
                        if k > i {
                            assert(a@[i as int] == b@[i as int]);
                        }
                    }
                }
            }
            return lt;
        }
        i += 1;
    }
    if i == la {
        true
    } else {
        proof {
            assert forall|k: int|
                0 <= k < a@.len() && k < b@.len() && (forall|j: int|
                    0 <= j < k ==> a@[j] == b@[j]) implies !((#[trigger] a@[k] as int) < (
            b@[k] as int)) by {
                assert(k < i);
            }
        }
        false
    }
}

/// Whether `tags` holds the tag `t`.
pub fn contains_tag(tags: &Vec<String>, t: &String) -> (r: bool)
    ensures
        r == has_tag(tags@, t@),
{
    let mut i: usize = 0;
    while i < tags.len()
        invariant
            i <= tags@.len(),
            forall|j: int| 0 <= j < i ==> (#[trigger] tags@[j])@ != t@,
        decreases tags@.len() - i,
    {
        if crate::text::str_equal(tags[i].as_str(), t.as_str()) {
            return true;
        }
        i += 1;
    }
    false
}

/// Whether `instance` has every tag that `job` asks for.
pub fn is_eligible(instance: &GitLabRunnerInstance, job: &Job) -> (r: bool)
    ensures
        r == eligible(*instance, *job),
{
    let mut i: usize = 0;
    while i < job.tags.len()
        invariant
            i <= job.tags@.len(),
            forall|j: int| 0 <= j < i ==> has_tag(instance.tags@, (#[trigger] job.tags@[j])@),
        decreases job.tags@.len() - i,
    {
        if !contains_tag(&instance.tags, &job.tags[i]) {
            return false;
        }
        i += 1;
    }
    true
}

/// The position of the instance that serves `job` best: among those that
/// have every tag the job asks for, the one with the fewest tags, and among
/// those the one whose name comes first.
pub fn find_match_index(instances: &NameMap<GitLabRunnerInstance>, job: &Job) -> (r: Option<usize>)
    ensures
        match r {
            Some(i) => is_best_match(instances.entries@, *job, i as int),
            None => !has_eligible(instances.entries@, *job),
        },
{
    let n = instances.entries.len();
    let mut best: Option<usize> = None;
    let mut i: usize = 0;
    while i < n
        invariant
            n == instances.entries@.len(),
            i <= n,
            match best {
                Some(b) => b < i && eligible(instances.entries@[b as int].1, *job) && forall|j: int|
                    0 <= j < i && eligible((#[trigger] instances.entries@[j]).1, *job) ==> fits_before(
                        instances.entries@[b as int],
                        instances.entries@[j],
                    ),
                None => forall|j: int|
                    0 <= j < i ==> !eligible((#[trigger] instances.entries@[j]).1, *job),
            },
        decreases n - i,
    {
        let entry = &instances.entries[i];
        if is_eligible(&entry.1, job) {
            match best {
                None => {
                    best = Some(i);
                    proof {
                        lemma_name_precedes_total(entry.0@, entry.0@);
                    }
                },
                Some(b) => {
                    let current = &instances.entries[b];
                    let nb = current.1.tags.len();
                    let ni = entry.1.tags.len();
                    let better = ni < nb || (ni == nb && !name_le(current.0.as_str(), entry.0.as_str()));
                    let ghost es = instances.entries@;
                    proof {
                        lemma_name_precedes_total(es[b as int].0@, es[i as int].0@);
                        lemma_name_precedes_total(es[i as int].0@, es[i as int].0@);
                    }
                    if better {
                        best = Some(i);
                        proof {
                            assert forall|j: int|
                                0 <= j < i + 1 && eligible((#[trigger] es[j]).1, *job) implies fits_before(
                                es[i as int],
                                es[j],
                            ) by {
                                if j < i && es[i as int].1.tags@.len() == es[j].1.tags@.len() {
                                    lemma_name_precedes_transitive(es[i as int].0@, es[b as int].0@, es[j].0@);
                                }
                            }
                        }
                    }
                },
            }
        }
        i += 1;
    }
    best
}

/// The name of the instance that serves `job` best (see `find_match_index`),
/// or `None` when no instance has every tag that the job asks for.
pub fn find_match(instances: &NameMap<GitLabRunnerInstance>, job: &Job) -> (r: Option<String>)
    requires
        instances.wf(),
    ensures
        match r {
            Some(name) => best_match_of(instances.entries@, *job) == Some(name@),
            None => best_match_of(instances.entries@, *job) == None::<Seq<char>>,
        },
{
    match find_match_index(instances, job) {
        Some(i) => {
            let name = instances.entries[i].0.clone();
            proof {
                let es = instances.entries@;
                assert(has_eligible(es, *job)) by {
                    assert(eligible(es[i as int].1, *job));
                }
                let c = choose|c: int| is_best_match(es, *job, c);
                lemma_best_match_unique(es, *job, i as int, c);
            }
            Some(name)
        },
        None => None,
    }
}

} // verus!
