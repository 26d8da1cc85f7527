use vstd::prelude::*;

use crate::config::{GitLabRunnerInstance, GitLabRunnersConfig};
use crate::gitlab_config::{RegisteredRunner, RunnerRegistration};
use crate::template::{
    expand_runner_config_template, instance_table, runner_expands, runner_expands_to, HostEnv,
    TemplateError,
};
use crate::gitlab_wrap::{RemoteOutcome, RunnerParameters};
use crate::name_map::NameMap;
use crate::text::{concat, copy_strings};

verus! {

/// The remote description of instance `name` of meta-runner `meta_name`.
pub open spec fn description_of(meta_name: Seq<char>, name: Seq<char>) -> Seq<char> {
    meta_name + "-"@ + name
}

/// The remote description of a worker instance: the meta-runner's name and
/// the instance's name, joined by a dash.
pub fn runner_name_to_description(config: &GitLabRunnersConfig, name: &str) -> (r: String)
    ensures
        r@ == description_of(config.name@, name@),
{
    let prefix = concat(config.name.as_str(), "-");
    concat(prefix.as_str(), name)
}

/// Which call a reconciliation error comes from.
#[derive(Debug, Clone, Copy, PartialEq, Eq, Structural)]
pub enum ReconcileAction {
    Update,
    Create,
    Delete,
}

/// A failed call during reconciliation, with the instance it was for.
#[derive(Debug, Clone, PartialEq)]
pub struct ReconcileError {
    pub name: String,
    pub action: ReconcileAction,
    pub message: String,
}

/// The views of a sequence of errors: instance name and action.
pub open spec fn errors_view(es: Seq<ReconcileError>) -> Seq<(Seq<char>, ReconcileAction)> {
    es.map_values(|e: ReconcileError| (e.name@, e.action))
}

/// An update of a registered worker's description and tags; holds the
/// registration that is kept unless the worker is found missing.
#[derive(Debug, Clone, PartialEq)]
pub struct UpdateRequest {
    pub name: String,
    pub runner_id: u64,
    pub params: RunnerParameters,
    pub registration: RunnerRegistration,
}

/// The creation of a worker for an instance.
#[derive(Debug, Clone, PartialEq)]
pub struct CreateRequest {
    pub name: String,
    pub params: RunnerParameters,
}

/// The deletion of a registered worker; holds the registration that is kept
/// when the deletion fails.
#[derive(Debug, Clone, PartialEq)]
pub struct DeleteRequest {
    pub name: String,
    pub registration: RunnerRegistration,
}

pub open spec fn update_request_names(rs: Seq<UpdateRequest>) -> Seq<Seq<char>> {
    rs.map_values(|r: UpdateRequest| r.name@)
}

pub open spec fn create_request_names(rs: Seq<CreateRequest>) -> Seq<Seq<char>> {
    rs.map_values(|r: CreateRequest| r.name@)
}

pub open spec fn delete_request_entries(rs: Seq<DeleteRequest>) -> Seq<(Seq<char>, RunnerRegistration)> {
    rs.map_values(|r: DeleteRequest| (r.name@, r.registration))
}

/// Registered instances that are still desired, in registration order.
pub open spec fn update_names(
    current: Seq<(String, RunnerRegistration)>,
    desired: Map<Seq<char>, GitLabRunnerInstance>,
) -> Seq<Seq<char>>
    decreases current.len(),
{
    if current.len() == 0 {
        Seq::empty()
    } else {
        let rest = update_names(current.drop_last(), desired);
        if desired.contains_key(current.last().0@) {
            rest.push(current.last().0@)
        } else {
            rest
        }
    }
}

/// Registered instances that are no longer desired, with their
/// registrations, in registration order.
pub open spec fn delete_entries(
    current: Seq<(String, RunnerRegistration)>,
    desired: Map<Seq<char>, GitLabRunnerInstance>,
) -> Seq<(Seq<char>, RunnerRegistration)>
    decreases current.len(),
{
    if current.len() == 0 {
        Seq::empty()
    } else {
        let rest = delete_entries(current.drop_last(), desired);
        if !desired.contains_key(current.last().0@) {
            rest.push((current.last().0@, current.last().1))
        } else {
            rest
        }
    }
}

/// The updated names whose update found no such worker.
pub open spec fn missing_names(names: Seq<Seq<char>>, outcomes: Seq<RemoteOutcome<()>>) -> Set<Seq<char>>
    decreases names.len(),
{
    if names.len() == 0 {
        Set::empty()
    } else {
        let rest = missing_names(names.drop_last(), outcomes.drop_last());
        if outcomes.last() is NotFound {
            rest.insert(names.last())
        } else {
            rest
        }
    }
}

/// Desired instances that get a new worker: those not registered, and those
/// whose worker was found missing, in configuration order.
pub open spec fn create_names(
    desired: Seq<(String, GitLabRunnerInstance)>,
    current: Map<Seq<char>, RunnerRegistration>,
    missing: Set<Seq<char>>,
) -> Seq<Seq<char>>
    decreases desired.len(),
{
    if desired.len() == 0 {
        Seq::empty()
    } else {
        let rest = create_names(desired.drop_last(), current, missing);
        let name = desired.last().0@;
        if !current.contains_key(name) || missing.contains(name) {
            rest.push(name)
        } else {
            rest
        }
    }
}

/// The registrations kept after the updates: each updated instance whose
/// worker was not found missing keeps its registration unchanged.
pub open spec fn kept_after_update(
    names: Seq<Seq<char>>,
    outcomes: Seq<RemoteOutcome<()>>,
    current: Map<Seq<char>, RunnerRegistration>,
) -> Map<Seq<char>, RunnerRegistration>
    decreases names.len(),
{
    if names.len() == 0 {
        Map::empty()
    } else {
        let rest = kept_after_update(names.drop_last(), outcomes.drop_last(), current);
        if outcomes.last() is NotFound {
            rest
        } else {
            rest.insert(names.last(), current[names.last()])
        }
    }
}

/// The names whose call failed for another reason than a missing worker.
pub open spec fn failed_names<T>(names: Seq<Seq<char>>, outcomes: Seq<RemoteOutcome<T>>) -> Seq<Seq<char>>
    decreases names.len(),
{
    if names.len() == 0 {
        Seq::empty()
    } else {
        let rest = failed_names(names.drop_last(), outcomes.drop_last());
        if outcomes.last() is Failed {
            rest.push(names.last())
        } else {
            rest
        }
    }
}

/// The names whose creation did not succeed.
pub open spec fn unsuccessful_names<T>(names: Seq<Seq<char>>, outcomes: Seq<RemoteOutcome<T>>) -> Seq<Seq<char>>
    decreases names.len(),
{
    if names.len() == 0 {
        Seq::empty()
    } else {
        let rest = unsuccessful_names(names.drop_last(), outcomes.drop_last());
        if outcomes.last() is Done {
            rest
        } else {
            rest.push(names.last())
        }
    }
}

/// The registrations of the workers that were created.
pub open spec fn created_registrations(
    names: Seq<Seq<char>>,
    outcomes: Seq<RemoteOutcome<RunnerRegistration>>,
) -> Map<Seq<char>, RunnerRegistration>
    decreases names.len(),
{
    if names.len() == 0 {
        Map::empty()
    } else {
        let rest = created_registrations(names.drop_last(), outcomes.drop_last());
        match outcomes.last() {
            RemoteOutcome::Done(reg) => rest.insert(names.last(), reg),
            _ => rest,
        }
    }
}

/// The registrations kept because their deletion failed.
pub open spec fn retained_after_delete(
    entries: Seq<(Seq<char>, RunnerRegistration)>,
    outcomes: Seq<RemoteOutcome<()>>,
) -> Map<Seq<char>, RunnerRegistration>
    decreases entries.len(),
{
    if entries.len() == 0 {
        Map::empty()
    } else {
        let rest = retained_after_delete(entries.drop_last(), outcomes.drop_last());
        if outcomes.last() is Failed {
            rest.insert(entries.last().0, entries.last().1)
        } else {
            rest
        }
    }
}

/// An update request carries the registered id, the description and the
/// desired tags of its instance.
pub open spec fn update_request_ok(
    config: GitLabRunnersConfig,
    current: Map<Seq<char>, RunnerRegistration>,
    r: UpdateRequest,
) -> bool {
    &&& r.runner_id == current[r.name@].id
    &&& r.registration == current[r.name@]
    &&& r.params.description@ == description_of(config.name@, r.name@)
    &&& r.params.tags@ == config.runners@[r.name@].tags@
}

/// A create request carries the description and the desired tags of its
/// instance.
pub open spec fn create_request_ok(config: GitLabRunnersConfig, r: CreateRequest) -> bool {
    &&& r.params.description@ == description_of(config.name@, r.name@)
    &&& r.params.tags@ == config.runners@[r.name@].tags@
}

/// The parameters sent for instance `name`.
fn parameters_for(config: &GitLabRunnersConfig, name: &String, instance: &GitLabRunnerInstance) -> (r: RunnerParameters)
    ensures
        r.description@ == description_of(config.name@, name@),
        r.tags@ == instance.tags@,
{
    RunnerParameters {
        description: runner_name_to_description(config, name.as_str()),
        tags: copy_strings(&instance.tags),
    }
}

/// First phase of a reconciliation: one update per registered instance that
/// is still desired.
pub fn plan_updates(config: &GitLabRunnersConfig, current: &NameMap<RunnerRegistration>) -> (r: Vec<UpdateRequest>)
    requires
        config.wf(),
        current.wf(),
    ensures
        update_request_names(r@) == update_names(current.entries@, config.runners@),
        forall|i: int| 0 <= i < r@.len() ==> update_request_ok(*config, current@, #[trigger] r@[i]),
{
    let mut r: Vec<UpdateRequest> = Vec::new();
    let mut i: usize = 0;
    while i < current.entries.len()
        invariant
            i <= current.entries@.len(),
            config.wf(),
            current.wf(),
            update_request_names(r@) == update_names(current.entries@.take(i as int), config.runners@),
            forall|q: int| 0 <= q < r@.len() ==> update_request_ok(*config, current@, #[trigger] r@[q]),
        decreases current.entries@.len() - i,
    {
        proof {
            assert(current.entries@.take(i + 1).drop_last() == current.entries@.take(i as int));
            crate::name_map::lemma_entries_map_index(current.entries@, i as int);
        }
        let entry = &current.entries[i];
        match config.runners.get(entry.0.as_str()) {
            Some(instance) => {
                let ghost before = r@;
                let params = parameters_for(config, &entry.0, instance);
                r.push(UpdateRequest { name: entry.0.clone(), runner_id: entry.1.id, params, registration: entry.1.duplicate() });
                proof {
                    assert(update_request_names(r@) =~= update_request_names(before).push(entry.0@));
                }
            },
            None => {},
        }
        i += 1;
    }
    proof {
        assert(current.entries@.take(current.entries@.len() as int) == current.entries@);
    }
    r
}

/// What the second phase decides: the registrations kept so far, the
/// creations and deletions to make, and the errors of the updates.
#[derive(Debug, Clone, PartialEq)]
pub struct UpdatePhase {
    pub registrations: NameMap<RunnerRegistration>,
    pub creates: Vec<CreateRequest>,
    pub deletes: Vec<DeleteRequest>,
    pub errors: Vec<ReconcileError>,
}

/// Creations and deletions concern distinct instances, each at most once.
pub open spec fn requests_disjoint(creates: Seq<CreateRequest>, deletes: Seq<DeleteRequest>) -> bool {
    &&& forall|i: int, j: int|
        0 <= i < creates.len() && 0 <= j < deletes.len() ==> (#[trigger] creates[i]).name@
            != (#[trigger] deletes[j]).name@
    &&& forall|i: int, j: int|
        0 <= i < creates.len() && 0 <= j < creates.len() && i != j ==> (#[trigger] creates[i]).name@
            != (#[trigger] creates[j]).name@
    &&& forall|i: int, j: int|
        0 <= i < deletes.len() && 0 <= j < deletes.len() && i != j ==> (#[trigger] deletes[i]).name@
            != (#[trigger] deletes[j]).name@
}

impl UpdatePhase {
    /// The creations and deletions concern distinct instances, none of which
    /// holds a kept registration.
    pub open spec fn disjoint(&self) -> bool {
        &&& self.registrations.wf()
        &&& forall|i: int|
            0 <= i < self.creates@.len() ==> !self.registrations@.contains_key(
                (#[trigger] self.creates@[i]).name@,
            )
        &&& forall|i: int|
            0 <= i < self.deletes@.len() ==> !self.registrations@.contains_key(
                (#[trigger] self.deletes@[i]).name@,
            )
        &&& requests_disjoint(self.creates@, self.deletes@)
    }
}

proof fn lemma_update_names(current: Seq<(String, RunnerRegistration)>, desired: Map<Seq<char>, GitLabRunnerInstance>)
    requires
        crate::name_map::names_unique(current),
    ensures
        forall|i: int|
            0 <= i < update_names(current, desired).len() ==> desired.contains_key(
                #[trigger] update_names(current, desired)[i],
            ) && crate::name_map::entries_map(current).contains_key(update_names(current, desired)[i]),
        forall|i: int, j: int|
            0 <= i < update_names(current, desired).len() && 0 <= j < update_names(current, desired).len() && i != j
                ==> #[trigger] update_names(current, desired)[i] != #[trigger] update_names(current, desired)[j],
    decreases current.len(),
{
    if current.len() > 0 {
        let t = current.drop_last();
        assert(crate::name_map::names_unique(t)) by {
            assert forall|a: int, b: int| 0 <= a < t.len() && 0 <= b < t.len() && a != b implies #[trigger] t[a].0@ != #[trigger] t[b].0@ by {
                assert(t[a] == current[a] && t[b] == current[b]);
            }
        }
        lemma_update_names(t, desired);
        let u = update_names(current, desired);
        let ut = update_names(t, desired);
        let last = current.last().0@;
        assert forall|i: int| 0 <= i < ut.len() implies (#[trigger] ut[i]) != last by {
            crate::name_map::lemma_entries_map_domain(t, ut[i]);
            let j = choose|j: int| 0 <= j < t.len() && #[trigger] t[j].0@ == ut[i];
            assert(t[j] == current[j]);
            assert(current[current.len() - 1].0@ == last);
        }
        assert forall|i: int| 0 <= i < u.len() implies crate::name_map::entries_map(current).contains_key(#[trigger] u[i]) by {
            if i < ut.len() {
                assert(u[i] == ut[i]);
            }
        }
    }
}

proof fn lemma_delete_entries(current: Seq<(String, RunnerRegistration)>, desired: Map<Seq<char>, GitLabRunnerInstance>)
    requires
        crate::name_map::names_unique(current),
    ensures
        forall|i: int|
            0 <= i < delete_entries(current, desired).len() ==> !desired.contains_key(
                (#[trigger] delete_entries(current, desired)[i]).0,
            ),
        forall|i: int, j: int|
            0 <= i < delete_entries(current, desired).len() && 0 <= j < delete_entries(current, desired).len() && i != j
                ==> (#[trigger] delete_entries(current, desired)[i]).0 != (#[trigger] delete_entries(current, desired)[j]).0,
    decreases current.len(),
{
    if current.len() > 0 {
        let t = current.drop_last();
        assert(crate::name_map::names_unique(t)) by {
            assert forall|a: int, b: int| 0 <= a < t.len() && 0 <= b < t.len() && a != b implies #[trigger] t[a].0@ != #[trigger] t[b].0@ by {
                assert(t[a] == current[a] && t[b] == current[b]);
            }
        }
        lemma_delete_entries(t, desired);
        lemma_delete_entries_from(t, desired);
        let dt = delete_entries(t, desired);
        let last = current.last().0@;
        assert forall|i: int| 0 <= i < dt.len() implies (#[trigger] dt[i]).0 != last by {
            let j = choose|j: int| 0 <= j < t.len() && #[trigger] t[j].0@ == dt[i].0;
            assert(t[j] == current[j]);
            assert(current[current.len() - 1].0@ == last);
        }
    }
}

proof fn lemma_delete_entries_from(current: Seq<(String, RunnerRegistration)>, desired: Map<Seq<char>, GitLabRunnerInstance>)
    ensures
        forall|i: int|
            0 <= i < delete_entries(current, desired).len() ==> exists|j: int|
                0 <= j < current.len() && #[trigger] current[j].0@ == (#[trigger] delete_entries(current, desired)[i]).0,
    decreases current.len(),
{
    if current.len() > 0 {
        let t = current.drop_last();
        lemma_delete_entries_from(t, desired);
        let d = delete_entries(current, desired);
        let dt = delete_entries(t, desired);
        assert forall|i: int| 0 <= i < d.len() implies exists|j: int|
            0 <= j < current.len() && #[trigger] current[j].0@ == (#[trigger] d[i]).0 by {
            if i < dt.len() {
                assert(d[i] == dt[i]);
                let j = choose|j: int| 0 <= j < t.len() && #[trigger] t[j].0@ == dt[i].0;
                assert(t[j] == current[j]);
            } else {
                assert(current[current.len() - 1].0@ == d[i].0);
            }
        }
    }
}

proof fn lemma_create_names(
    desired: Seq<(String, GitLabRunnerInstance)>,
    current: Map<Seq<char>, RunnerRegistration>,
    missing: Set<Seq<char>>,
)
    requires
        crate::name_map::names_unique(desired),
    ensures
        forall|i: int|
            0 <= i < create_names(desired, current, missing).len() ==> crate::name_map::entries_map(desired).contains_key(
                #[trigger] create_names(desired, current, missing)[i],
            ) && (!current.contains_key(create_names(desired, current, missing)[i]) || missing.contains(
                create_names(desired, current, missing)[i],
            )),
        forall|i: int, j: int|
            0 <= i < create_names(desired, current, missing).len() && 0 <= j < create_names(desired, current, missing).len() && i != j
                ==> #[trigger] create_names(desired, current, missing)[i] != #[trigger] create_names(desired, current, missing)[j],
    decreases desired.len(),
{
    if desired.len() > 0 {
        let t = desired.drop_last();
        assert(crate::name_map::names_unique(t)) by {
            assert forall|a: int, b: int| 0 <= a < t.len() && 0 <= b < t.len() && a != b implies #[trigger] t[a].0@ != #[trigger] t[b].0@ by {
                assert(t[a] == desired[a] && t[b] == desired[b]);
            }
        }
        lemma_create_names(t, current, missing);
        let c = create_names(desired, current, missing);
        let ct = create_names(t, current, missing);
        let last = desired.last().0@;
        assert forall|i: int| 0 <= i < ct.len() implies (#[trigger] ct[i]) != last by {
            crate::name_map::lemma_entries_map_domain(t, ct[i]);
            let j = choose|j: int| 0 <= j < t.len() && #[trigger] t[j].0@ == ct[i];
            assert(t[j] == desired[j]);
            assert(desired[desired.len() - 1].0@ == last);
        }
        assert forall|i: int| 0 <= i < c.len() implies crate::name_map::entries_map(desired).contains_key(#[trigger] c[i]) by {
            if i < ct.len() {
                assert(c[i] == ct[i]);
            }
        }
    }
}

proof fn lemma_kept_after_update(
    names: Seq<Seq<char>>,
    outcomes: Seq<RemoteOutcome<()>>,
    current: Map<Seq<char>, RunnerRegistration>,
    k: Seq<char>,
)
    requires
        names.len() == outcomes.len(),
        forall|i: int, j: int| 0 <= i < names.len() && 0 <= j < names.len() && i != j ==> #[trigger] names[i] != #[trigger] names[j],
        kept_after_update(names, outcomes, current).contains_key(k),
    ensures
        names.contains(k),
        !missing_names(names, outcomes).contains(k),
    decreases names.len(),
{
    let t = names.drop_last();
    let ot = outcomes.drop_last();
    if names.last() == k && !(outcomes.last() is NotFound) {
        assert(names[names.len() - 1] == k);
        if missing_names(t, ot).contains(k) {
            lemma_missing_in_names(t, ot, k);
            let j = choose|j: int| 0 <= j < t.len() && t[j] == k;
            assert(names[j] == t[j]);
        }
    } else {
        assert forall|i: int, j: int| 0 <= i < t.len() && 0 <= j < t.len() && i != j implies #[trigger] t[i] != #[trigger] t[j] by {
            assert(t[i] == names[i] && t[j] == names[j]);
        }
        lemma_kept_after_update(t, ot, current, k);
        let j = choose|j: int| 0 <= j < t.len() && t[j] == k;
        assert(names[j] == t[j]);
        if names.last() == k {
            assert(names[names.len() - 1] == names[j]);
        }
    }
}

proof fn lemma_missing_in_names(names: Seq<Seq<char>>, outcomes: Seq<RemoteOutcome<()>>, k: Seq<char>)
    requires
        missing_names(names, outcomes).contains(k),
    ensures
        names.contains(k),
    decreases names.len(),
{
    let t = names.drop_last();
    if !(outcomes.last() is NotFound && names.last() == k) {
        lemma_missing_in_names(t, outcomes.drop_last(), k);
        let j = choose|j: int| 0 <= j < t.len() && t[j] == k;
        assert(names[j] == t[j]);
    } else {
        assert(names[names.len() - 1] == k);
    }
}

/// Whether the update of instance `name` found its worker missing.
fn update_found_missing(updates: &Vec<UpdateRequest>, outcomes: &Vec<RemoteOutcome<()>>, name: &String) -> (r: bool)
    requires
        updates@.len() == outcomes@.len(),
    ensures
        r == missing_names(update_request_names(updates@), outcomes@).contains(name@),
{
    let ghost un = update_request_names(updates@);
    let mut r = false;
    let mut i: usize = 0;
    while i < updates.len()
        invariant
            i <= updates@.len(),
            updates@.len() == outcomes@.len(),
            un == update_request_names(updates@),
            r == missing_names(un.take(i as int), outcomes@.take(i as int)).contains(name@),
        decreases updates@.len() - i,
    {
        proof {
            assert(un.take(i + 1).drop_last() == un.take(i as int));
            assert(outcomes@.take(i + 1).drop_last() == outcomes@.take(i as int));
        }
        let hit = match &outcomes[i] {
            RemoteOutcome::NotFound => crate::text::str_equal(updates[i].name.as_str(), name.as_str()),
            _ => false,
        };
        r = r || hit;
        i += 1;
    }
    proof {
        assert(un.take(updates@.len() as int) == un);
        assert(outcomes@.take(updates@.len() as int) == outcomes@);
    }
    r
}

/// Second phase of a reconciliation, once the updates are answered: a worker
/// found missing is created anew; otherwise the registration is kept, and a
/// failed update is reported. Desired instances without registration are
/// created and registered instances no longer desired are deleted.
pub fn apply_update_results(
    config: &GitLabRunnersConfig,
    current: &NameMap<RunnerRegistration>,
    updates: &Vec<UpdateRequest>,
    outcomes: &Vec<RemoteOutcome<()>>,
) -> (r: UpdatePhase)
    requires
        config.wf(),
        current.wf(),
        updates@.len() == outcomes@.len(),
        update_request_names(updates@) == update_names(current.entries@, config.runners@),
        forall|i: int| 0 <= i < updates@.len() ==> update_request_ok(*config, current@, #[trigger] updates@[i]),
    ensures
        r.disjoint(),
        r.registrations@ == kept_after_update(update_request_names(updates@), outcomes@, current@),
        create_request_names(r.creates@) == create_names(
            config.runners.entries@,
            current@,
            missing_names(update_request_names(updates@), outcomes@),
        ),
        forall|i: int| 0 <= i < r.creates@.len() ==> create_request_ok(*config, #[trigger] r.creates@[i]),
        delete_request_entries(r.deletes@) == delete_entries(current.entries@, config.runners@),
        errors_view(r.errors@) == failed_names(update_request_names(updates@), outcomes@).map_values(
            |n: Seq<char>| (n, ReconcileAction::Update),
        ),
{
    let ghost un = update_request_names(updates@);
    proof {
        lemma_update_names(current.entries@, config.runners@);
    }
    // registrations kept by the updates, and their errors
    let mut registrations: NameMap<RunnerRegistration> = NameMap::new();
    let mut errors: Vec<ReconcileError> = Vec::new();
    let mut i: usize = 0;
    while i < updates.len()
        invariant
            i <= updates@.len(),
            updates@.len() == outcomes@.len(),
            current.wf(),
            un == update_request_names(updates@),
            un == update_names(current.entries@, config.runners@),
            forall|a: int, b: int| 0 <= a < un.len() && 0 <= b < un.len() && a != b ==> #[trigger] un[a] != #[trigger] un[b],
            forall|a: int| 0 <= a < un.len() ==> current@.contains_key(#[trigger] un[a]),
            forall|a: int| 0 <= a < updates@.len() ==> update_request_ok(*config, current@, #[trigger] updates@[a]),
            registrations.wf(),
            registrations@ == kept_after_update(un.take(i as int), outcomes@.take(i as int), current@),
            errors_view(errors@) == failed_names(un.take(i as int), outcomes@.take(i as int)).map_values(
                |n: Seq<char>| (n, ReconcileAction::Update),
            ),
        decreases updates@.len() - i,
    {
        proof {
            assert(un.take(i + 1).drop_last() == un.take(i as int));
            assert(outcomes@.take(i + 1).drop_last() == outcomes@.take(i as int));
            assert(un[i as int] == updates@[i as int].name@);
        }
        let name = &updates[i].name;
        match &outcomes[i] {
            RemoteOutcome::NotFound => {},
            outcome => {
                proof {
                    if registrations@.contains_key(name@) {
                        let t = un.take(i as int);
                        assert forall|a: int, b: int| 0 <= a < t.len() && 0 <= b < t.len() && a != b implies #[trigger] t[a] != #[trigger] t[b] by {
                            assert(t[a] == un[a] && t[b] == un[b]);
                        }
                        lemma_kept_after_update(t, outcomes@.take(i as int), current@, name@);
                        let j = choose|j: int| 0 <= j < t.len() && t[j] == name@;
                        assert(un[j] == t[j]);
                    }
                }
                let registration = updates[i].registration.duplicate();
                registrations.insert_new(name.clone(), registration);
                match outcome {
                    RemoteOutcome::Failed(message) => {
                        let ghost before = errors@;
                        errors.push(ReconcileError { name: name.clone(), action: ReconcileAction::Update, message: message.clone() });
                        proof {
                            assert(errors_view(errors@) =~= errors_view(before).push((name@, ReconcileAction::Update)));
                            assert(failed_names(un.take(i + 1), outcomes@.take(i + 1)).map_values(
                                |n: Seq<char>| (n, ReconcileAction::Update),
                            ) =~= failed_names(un.take(i as int), outcomes@.take(i as int)).map_values(
                                |n: Seq<char>| (n, ReconcileAction::Update),
                            ).push((name@, ReconcileAction::Update)));
                        }
                    },
                    _ => {},
                }
            },
        }
        i += 1;
    }
    proof {
        assert(un.take(updates@.len() as int) == un);
        assert(outcomes@.take(updates@.len() as int) == outcomes@);
    }
    // creations, in configuration order
    let ghost missing = missing_names(un, outcomes@);
    let mut creates: Vec<CreateRequest> = Vec::new();
    let mut c: usize = 0;
    while c < config.runners.entries.len()
        invariant
            c <= config.runners.entries@.len(),
            config.wf(),
            current.wf(),
            updates@.len() == outcomes@.len(),
            un == update_request_names(updates@),
            missing == missing_names(un, outcomes@),
            create_request_names(creates@) == create_names(config.runners.entries@.take(c as int), current@, missing),
            forall|q: int| 0 <= q < creates@.len() ==> create_request_ok(*config, #[trigger] creates@[q]),
        decreases config.runners.entries@.len() - c,
    {
        proof {
            assert(config.runners.entries@.take(c + 1).drop_last() == config.runners.entries@.take(c as int));
            crate::name_map::lemma_entries_map_index(config.runners.entries@, c as int);
        }
        let entry = &config.runners.entries[c];
        if !current.contains_key(entry.0.as_str()) || update_found_missing(updates, outcomes, &entry.0) {
            let ghost before = creates@;
            let params = parameters_for(config, &entry.0, &entry.1);
            creates.push(CreateRequest { name: entry.0.clone(), params });
            proof {
                assert(create_request_names(creates@) =~= create_request_names(before).push(entry.0@));
            }
        }
        c += 1;
    }
    proof {
        assert(config.runners.entries@.take(config.runners.entries@.len() as int) == config.runners.entries@);
    }
    // deletions, in registration order
    let mut deletes: Vec<DeleteRequest> = Vec::new();
    let mut d: usize = 0;
    while d < current.entries.len()
        invariant
            d <= current.entries@.len(),
            config.wf(),
            current.wf(),
            delete_request_entries(deletes@) == delete_entries(current.entries@.take(d as int), config.runners@),
        decreases current.entries@.len() - d,
    {
        proof {
            assert(current.entries@.take(d + 1).drop_last() == current.entries@.take(d as int));
        }
        let entry = &current.entries[d];
        if !config.runners.contains_key(entry.0.as_str()) {
            let ghost before = deletes@;
            deletes.push(DeleteRequest { name: entry.0.clone(), registration: entry.1.duplicate() });
            proof {
                assert(delete_request_entries(deletes@) =~= delete_request_entries(before).push((entry.0@, entry.1)));
            }
        }
        d += 1;
    }
    proof {
        assert(current.entries@.take(current.entries@.len() as int) == current.entries@);
        lemma_create_names(config.runners.entries@, current@, missing);
        lemma_delete_entries(current.entries@, config.runners@);
        let cn = create_names(config.runners.entries@, current@, missing);
        let de = delete_entries(current.entries@, config.runners@);
        assert forall|q: int| 0 <= q < creates@.len() implies !registrations@.contains_key((#[trigger] creates@[q]).name@) by {
            assert(cn[q] == creates@[q].name@);
            if registrations@.contains_key(cn[q]) {
                lemma_kept_after_update(un, outcomes@, current@, cn[q]);
                let j = choose|j: int| 0 <= j < un.len() && un[j] == cn[q];
            }
        }
        assert forall|q: int| 0 <= q < deletes@.len() implies !registrations@.contains_key((#[trigger] deletes@[q]).name@) by {
            assert(de[q].0 == deletes@[q].name@);
            if registrations@.contains_key(de[q].0) {
                lemma_kept_after_update(un, outcomes@, current@, de[q].0);
                let j = choose|j: int| 0 <= j < un.len() && un[j] == de[q].0;
            }
        }
        assert forall|a: int, b: int| 0 <= a < creates@.len() && 0 <= b < deletes@.len() implies (#[trigger] creates@[a]).name@
            != (#[trigger] deletes@[b]).name@ by {
            assert(cn[a] == creates@[a].name@);
            assert(de[b].0 == deletes@[b].name@);
        }
        assert forall|a: int, b: int| 0 <= a < creates@.len() && 0 <= b < creates@.len() && a != b implies (#[trigger] creates@[a]).name@
            != (#[trigger] creates@[b]).name@ by {
            assert(cn[a] == creates@[a].name@);
            assert(cn[b] == creates@[b].name@);
        }
        assert forall|a: int, b: int| 0 <= a < deletes@.len() && 0 <= b < deletes@.len() && a != b implies (#[trigger] deletes@[a]).name@
            != (#[trigger] deletes@[b]).name@ by {
            assert(de[a].0 == deletes@[a].name@);
            assert(de[b].0 == deletes@[b].name@);
        }
    }
    UpdatePhase { registrations, creates, deletes, errors }
}

proof fn lemma_created_keys(names: Seq<Seq<char>>, outcomes: Seq<RemoteOutcome<RunnerRegistration>>, k: Seq<char>)
    requires
        created_registrations(names, outcomes).contains_key(k),
    ensures
        names.contains(k),
    decreases names.len(),
{
    let t = names.drop_last();
    if created_registrations(t, outcomes.drop_last()).contains_key(k) {
        lemma_created_keys(t, outcomes.drop_last(), k);
        let j = choose|j: int| 0 <= j < t.len() && t[j] == k;
        assert(names[j] == t[j]);
    } else {
        assert(names[names.len() - 1] == k);
    }
}

proof fn lemma_retained_keys(entries: Seq<(Seq<char>, RunnerRegistration)>, outcomes: Seq<RemoteOutcome<()>>, k: Seq<char>)
    requires
        entries.len() == outcomes.len(),
        retained_after_delete(entries, outcomes).contains_key(k),
    ensures
        exists|j: int| 0 <= j < entries.len() && #[trigger] entries[j].0 == k && outcomes[j] is Failed,
    decreases entries.len(),
{
    let t = entries.drop_last();
    if retained_after_delete(t, outcomes.drop_last()).contains_key(k) {
        lemma_retained_keys(t, outcomes.drop_last(), k);
        let j = choose|j: int| 0 <= j < t.len() && #[trigger] t[j].0 == k && outcomes.drop_last()[j] is Failed;
        assert(entries[j] == t[j]);
        assert(outcomes[j] == outcomes.drop_last()[j]);
    } else {
        assert(entries[entries.len() - 1].0 == k);
        assert(outcomes[outcomes.len() - 1] == outcomes.last());
    }
}

/// The outcome of a reconciliation: the registrations to persist, and the
/// errors of the calls that failed.
#[derive(Debug, Clone, PartialEq)]
pub struct ReconcileResult {
    pub registrations: NameMap<RunnerRegistration>,
    pub errors: Vec<ReconcileError>,
}

/// The registrations after a whole reconciliation: those kept by the updates,
/// those of the workers created, and those whose deletion failed.
pub open spec fn reconciled(
    kept: Map<Seq<char>, RunnerRegistration>,
    creates: Seq<Seq<char>>,
    create_outcomes: Seq<RemoteOutcome<RunnerRegistration>>,
    deletes: Seq<(Seq<char>, RunnerRegistration)>,
    delete_outcomes: Seq<RemoteOutcome<()>>,
) -> Map<Seq<char>, RunnerRegistration> {
    kept.union_prefer_right(created_registrations(creates, create_outcomes)).union_prefer_right(
        retained_after_delete(deletes, delete_outcomes),
    )
}

/// Last phase of a reconciliation, once creations and deletions are
/// answered: a created worker's registration is added; a worker that was
/// deleted, or found missing, is dropped; a failed deletion keeps the
/// registration so that it is retried next time. Every failure is reported.
pub fn finish_reconcile(
    phase: UpdatePhase,
    create_outcomes: Vec<RemoteOutcome<RunnerRegistration>>,
    delete_outcomes: Vec<RemoteOutcome<()>>,
) -> (r: ReconcileResult)
    requires
        phase.disjoint(),
        phase.creates@.len() == create_outcomes@.len(),
        phase.deletes@.len() == delete_outcomes@.len(),
    ensures
        r.registrations.wf(),
        r.registrations@ == reconciled(
            phase.registrations@,
            create_request_names(phase.creates@),
            create_outcomes@,
            delete_request_entries(phase.deletes@),
            delete_outcomes@,
        ),
        errors_view(r.errors@) == errors_view(phase.errors@) + unsuccessful_names(
            create_request_names(phase.creates@),
            create_outcomes@,
        ).map_values(|n: Seq<char>| (n, ReconcileAction::Create)) + failed_names(
            delete_request_entries(phase.deletes@).map_values(|e: (Seq<char>, RunnerRegistration)| e.0),
            delete_outcomes@,
        ).map_values(|n: Seq<char>| (n, ReconcileAction::Delete)),
{
    let UpdatePhase { registrations, creates, deletes, errors } = phase;
    let ghost kept = registrations@;
    let ghost cn = create_request_names(creates@);
    let ghost de = delete_request_entries(deletes@);
    let ghost dn = de.map_values(|e: (Seq<char>, RunnerRegistration)| e.0);
    let ghost errors0 = errors_view(errors@);
    let mut registrations = registrations;
    let mut errors = errors;
    let mut i: usize = 0;
    while i < creates.len()
        invariant
            i <= creates@.len(),
            creates@.len() == create_outcomes@.len(),
            cn == create_request_names(creates@),
            requests_disjoint(creates@, deletes@),
            forall|q: int| 0 <= q < creates@.len() ==> !kept.contains_key((#[trigger] creates@[q]).name@),
            registrations.wf(),
            registrations@ == kept.union_prefer_right(created_registrations(cn.take(i as int), create_outcomes@.take(i as int))),
            errors_view(errors@) == errors0 + unsuccessful_names(cn.take(i as int), create_outcomes@.take(i as int)).map_values(
                |n: Seq<char>| (n, ReconcileAction::Create),
            ),
        decreases creates@.len() - i,
    {
        proof {
            assert(cn.take(i + 1).drop_last() == cn.take(i as int));
            assert(create_outcomes@.take(i + 1).drop_last() == create_outcomes@.take(i as int));
            assert(cn[i as int] == creates@[i as int].name@);
        }
        let name = &creates[i].name;
        match &create_outcomes[i] {
            RemoteOutcome::Done(reg) => {
                proof {
                    if created_registrations(cn.take(i as int), create_outcomes@.take(i as int)).contains_key(name@) {
                        lemma_created_keys(cn.take(i as int), create_outcomes@.take(i as int), name@);
                        let j = choose|j: int| 0 <= j < i && cn.take(i as int)[j] == name@;
                        assert(cn[j] == creates@[j].name@);
                    }
                    assert(!kept.contains_key(name@));
                }
                registrations.insert_new(name.clone(), reg.duplicate());
                proof {
                    assert(registrations@ =~= kept.union_prefer_right(created_registrations(cn.take(i + 1), create_outcomes@.take(i + 1))));
                }
            },
            outcome => {
                let message = match outcome {
                    RemoteOutcome::Failed(m) => m.clone(),
                    _ => String::from_str("not found"),
                };
                let ghost before = errors@;
                errors.push(ReconcileError { name: name.clone(), action: ReconcileAction::Create, message });
                proof {
                    assert(errors_view(errors@) =~= errors_view(before).push((name@, ReconcileAction::Create)));
                    assert(registrations@ =~= kept.union_prefer_right(created_registrations(cn.take(i + 1), create_outcomes@.take(i + 1))));
                }
            },
        }
        i += 1;
    }
    proof {
        assert(cn.take(creates@.len() as int) == cn);
        assert(create_outcomes@.take(creates@.len() as int) == create_outcomes@);
    }
    let ghost errors1 = errors_view(errors@);
    let ghost merged = registrations@;
    let mut d: usize = 0;
    while d < deletes.len()
        invariant
            d <= deletes@.len(),
            deletes@.len() == delete_outcomes@.len(),
            de == delete_request_entries(deletes@),
            dn == de.map_values(|e: (Seq<char>, RunnerRegistration)| e.0),
            requests_disjoint(creates@, deletes@),
            forall|q: int| 0 <= q < deletes@.len() ==> !kept.contains_key((#[trigger] deletes@[q]).name@),
            merged == kept.union_prefer_right(created_registrations(cn, create_outcomes@)),
            cn == create_request_names(creates@),
            registrations.wf(),
            registrations@ == merged.union_prefer_right(retained_after_delete(de.take(d as int), delete_outcomes@.take(d as int))),
            errors_view(errors@) == errors1 + failed_names(dn.take(d as int), delete_outcomes@.take(d as int)).map_values(
                |n: Seq<char>| (n, ReconcileAction::Delete),
            ),
        decreases deletes@.len() - d,
    {
        proof {
            assert(de.take(d + 1).drop_last() == de.take(d as int));
            assert(dn.take(d + 1).drop_last() == dn.take(d as int));
            assert(delete_outcomes@.take(d + 1).drop_last() == delete_outcomes@.take(d as int));
            assert(de[d as int] == (deletes@[d as int].name@, deletes@[d as int].registration));
            assert(dn[d as int] == deletes@[d as int].name@);
        }
        let name = &deletes[d].name;
        match &delete_outcomes[d] {
            RemoteOutcome::Failed(message) => {
                proof {
                    if retained_after_delete(de.take(d as int), delete_outcomes@.take(d as int)).contains_key(name@) {
                        lemma_retained_keys(de.take(d as int), delete_outcomes@.take(d as int), name@);
                        let j = choose|j: int| 0 <= j < d && #[trigger] de.take(d as int)[j].0 == name@ && delete_outcomes@.take(d as int)[j] is Failed;
                        assert(de[j].0 == deletes@[j].name@);
                    }
                    if created_registrations(cn, create_outcomes@).contains_key(name@) {
                        lemma_created_keys(cn, create_outcomes@, name@);
                        let j = choose|j: int| 0 <= j < cn.len() && cn[j] == name@;
                        assert(cn[j] == creates@[j].name@);
                    }
                    assert(!kept.contains_key(name@));
                }
                registrations.insert_new(name.clone(), deletes[d].registration.duplicate());
                let ghost before = errors@;
                errors.push(ReconcileError { name: name.clone(), action: ReconcileAction::Delete, message: message.clone() });
                proof {
                    assert(errors_view(errors@) =~= errors_view(before).push((name@, ReconcileAction::Delete)));
                    assert(registrations@ =~= merged.union_prefer_right(retained_after_delete(de.take(d + 1), delete_outcomes@.take(d + 1))));
                }
            },
            _ => {
                proof {
                    assert(registrations@ =~= merged.union_prefer_right(retained_after_delete(de.take(d + 1), delete_outcomes@.take(d + 1))));
                }
            },
        }
        d += 1;
    }
    proof {
        assert(de.take(deletes@.len() as int) == de);
        assert(dn.take(deletes@.len() as int) == dn);
        assert(delete_outcomes@.take(deletes@.len() as int) == delete_outcomes@);
        assert(registrations@ =~= reconciled(kept, cn, create_outcomes@, de, delete_outcomes@));
    }
    ReconcileResult { registrations, errors }
}

/// After a reconciliation every registration belongs to a desired instance,
/// or to a registered instance whose deletion failed.
pub proof fn lemma_reconciled_keys(
    config: GitLabRunnersConfig,
    current: NameMap<RunnerRegistration>,
    update_outcomes: Seq<RemoteOutcome<()>>,
    create_outcomes: Seq<RemoteOutcome<RunnerRegistration>>,
    delete_outcomes: Seq<RemoteOutcome<()>>,
    k: Seq<char>,
)
    requires
        config.wf(),
        current.wf(),
        update_outcomes.len() == update_names(current.entries@, config.runners@).len(),
        delete_outcomes.len() == delete_entries(current.entries@, config.runners@).len(),
        reconciled(
            kept_after_update(update_names(current.entries@, config.runners@), update_outcomes, current@),
            create_names(
                config.runners.entries@,
                current@,
                missing_names(update_names(current.entries@, config.runners@), update_outcomes),
            ),
            create_outcomes,
            delete_entries(current.entries@, config.runners@),
            delete_outcomes,
        ).contains_key(k),
    ensures
        config.runners@.contains_key(k) || exists|j: int|
            0 <= j < delete_entries(current.entries@, config.runners@).len()
                && #[trigger] delete_entries(current.entries@, config.runners@)[j].0 == k
                && delete_outcomes[j] is Failed,
{
    let un = update_names(current.entries@, config.runners@);
    let cn = create_names(
        config.runners.entries@,
        current@,
        missing_names(un, update_outcomes),
    );
    let de = delete_entries(current.entries@, config.runners@);
    lemma_update_names(current.entries@, config.runners@);
    lemma_create_names(config.runners.entries@, current@, missing_names(un, update_outcomes));
    if retained_after_delete(de, delete_outcomes).contains_key(k) {
        lemma_retained_keys(de, delete_outcomes, k);
    } else if created_registrations(cn, create_outcomes).contains_key(k) {
        lemma_created_keys(cn, create_outcomes, k);
        let j = choose|j: int| 0 <= j < cn.len() && cn[j] == k;
    } else {
        lemma_kept_after_update(un, update_outcomes, current@, k);
        let j = choose|j: int| 0 <= j < un.len() && un[j] == k;
    }
}

/// Why the downstream configuration could not be produced.
#[derive(Debug, Clone, PartialEq)]
pub enum InstantiateError {
    /// The worker template does not expand for this instance.
    Template { instance: String, error: TemplateError },
    /// The instance has no registration.
    Unregistered { instance: String },
}

/// The URL of the CI platform.
pub open spec fn platform_url(hostname: Seq<char>) -> Seq<char> {
    "https://"@ + hostname
}

/// Entry `i` of the downstream configuration: the instance's name, its
/// expanded worker template, the platform's URL and its registration.
pub open spec fn registered_runner_ok(
    config: GitLabRunnersConfig,
    registrations: Map<Seq<char>, RunnerRegistration>,
    host: HostEnv,
    i: int,
    out: RegisteredRunner,
) -> bool {
    let name = config.runners.entries@[i].0@;
    let instance = config.runners.entries@[i].1;
    &&& out.name@ == name
    &&& runner_expands_to(host.home@, instance_table(name, host, instance), config.runner, out.config)
    &&& out.url@ == platform_url(config.hostname@)
    &&& registrations.contains_key(name)
    &&& out.registration == registrations[name]
}

/// The downstream configuration can be produced for instance entry `i`.
pub open spec fn instance_instantiable(
    config: GitLabRunnersConfig,
    registrations: Map<Seq<char>, RunnerRegistration>,
    host: HostEnv,
    i: int,
) -> bool {
    let name = config.runners.entries@[i].0@;
    let instance = config.runners.entries@[i].1;
    runner_expands(host.home@, instance_table(name, host, instance), config.runner) && registrations.contains_key(name)
}

/// The downstream configuration: one entry per instance, in configuration
/// order, with the expanded worker template and the instance's registration.
pub fn instantiate_gitlab_runner_configurations(
    config: &GitLabRunnersConfig,
    registrations: &NameMap<RunnerRegistration>,
    host: &HostEnv,
) -> (r: Result<Vec<RegisteredRunner>, InstantiateError>)
    requires
        config.wf(),
        registrations.wf(),
        host.env_vars.wf(),
    ensures
        match r {
            Ok(out) => out@.len() == config.runners.entries@.len() && forall|i: int|
                0 <= i < out@.len() ==> registered_runner_ok(*config, registrations@, *host, i, #[trigger] out@[i]),
            Err(_) => exists|i: int|
                0 <= i < config.runners.entries@.len() && !#[trigger] instance_instantiable(*config, registrations@, *host, i),
        },
{
    let mut out: Vec<RegisteredRunner> = Vec::new();
    let mut i: usize = 0;
    while i < config.runners.entries.len()
        invariant
            i <= config.runners.entries@.len(),
            config.wf(),
            registrations.wf(),
            host.env_vars.wf(),
            out@.len() == i,
            forall|q: int| 0 <= q < i ==> registered_runner_ok(*config, registrations@, *host, q, #[trigger] out@[q]),
        decreases config.runners.entries@.len() - i,
    {
        let entry = &config.runners.entries[i];
        assert(entry.1.config_variables.wf());
        let expanded = match expand_runner_config_template(&config.runner, entry.0.as_str(), &entry.1, host) {
            Ok(v) => v,
            Err(error) => {
                assert(!instance_instantiable(*config, registrations@, *host, i as int));
                return Err(InstantiateError::Template { instance: entry.0.clone(), error });
            },
        };
        let registration = match registrations.get(entry.0.as_str()) {
            Some(reg) => reg.duplicate(),
            None => {
                assert(!instance_instantiable(*config, registrations@, *host, i as int));
                return Err(InstantiateError::Unregistered { instance: entry.0.clone() });
            },
        };
        out.push(RegisteredRunner {
            name: entry.0.clone(),
            config: expanded,
            url: concat("https://", config.hostname.as_str()),
            registration,
        });
        i += 1;
    }
    Ok(out)
}

proof fn lemma_no_missing(names: Seq<Seq<char>>, outcomes: Seq<RemoteOutcome<()>>, k: Seq<char>)
    requires
        names.len() == outcomes.len(),
        forall|i: int| 0 <= i < outcomes.len() ==> !(#[trigger] outcomes[i] is NotFound),
    ensures
        !missing_names(names, outcomes).contains(k),
    decreases names.len(),
{
    if names.len() > 0 {
        let ot = outcomes.drop_last();
        assert forall|i: int| 0 <= i < ot.len() implies !(#[trigger] ot[i] is NotFound) by {
            assert(ot[i] == outcomes[i]);
        }
        lemma_no_missing(names.drop_last(), ot, k);
        assert(outcomes[outcomes.len() - 1] == outcomes.last());
    }
}

proof fn lemma_update_names_complete(
    current: Seq<(String, RunnerRegistration)>,
    desired: Map<Seq<char>, GitLabRunnerInstance>,
    k: Seq<char>,
)
    requires
        desired.contains_key(k),
        crate::name_map::entries_map(current).contains_key(k),
    ensures
        update_names(current, desired).contains(k),
    decreases current.len(),
{
    let t = current.drop_last();
    let u = update_names(current, desired);
    if current.last().0@ == k {
        assert(u[u.len() - 1] == k);
    } else {
        crate::name_map::lemma_entries_map_domain(current, k);
        let j = choose|j: int| 0 <= j < current.len() && #[trigger] current[j].0@ == k;
        assert(t[j] == current[j]);
        crate::name_map::lemma_entries_map_domain(t, k);
        lemma_update_names_complete(t, desired, k);
        let ut = update_names(t, desired);
        let w = choose|w: int| 0 <= w < ut.len() && ut[w] == k;
        assert(u[w] == ut[w]);
    }
}

proof fn lemma_kept_complete(
    names: Seq<Seq<char>>,
    outcomes: Seq<RemoteOutcome<()>>,
    current: Map<Seq<char>, RunnerRegistration>,
    k: Seq<char>,
)
    requires
        names.len() == outcomes.len(),
        names.contains(k),
        !missing_names(names, outcomes).contains(k),
    ensures
        kept_after_update(names, outcomes, current).contains_key(k),
    decreases names.len(),
{
    let t = names.drop_last();
    let ot = outcomes.drop_last();
    if names.last() == k {
    } else {
        let j = choose|j: int| 0 <= j < names.len() && names[j] == k;
        assert(t[j] == names[j]);
        lemma_kept_complete(t, ot, current, k);
    }
}

proof fn lemma_create_names_complete(
    desired: Seq<(String, GitLabRunnerInstance)>,
    current: Map<Seq<char>, RunnerRegistration>,
    missing: Set<Seq<char>>,
    k: Seq<char>,
)
    requires
        exists|j: int| 0 <= j < desired.len() && #[trigger] desired[j].0@ == k,
        !current.contains_key(k) || missing.contains(k),
    ensures
        create_names(desired, current, missing).contains(k),
    decreases desired.len(),
{
    let t = desired.drop_last();
    let c = create_names(desired, current, missing);
    if desired.last().0@ == k {
        assert(c[c.len() - 1] == k);
    } else {
        let j = choose|j: int| 0 <= j < desired.len() && #[trigger] desired[j].0@ == k;
        assert(t[j] == desired[j]);
        lemma_create_names_complete(t, current, missing, k);
        let ct = create_names(t, current, missing);
        let w = choose|w: int| 0 <= w < ct.len() && ct[w] == k;
        assert(c[w] == ct[w]);
    }
}

proof fn lemma_created_complete(names: Seq<Seq<char>>, outcomes: Seq<RemoteOutcome<RunnerRegistration>>, k: Seq<char>)
    requires
        names.len() == outcomes.len(),
        names.contains(k),
        forall|i: int| 0 <= i < outcomes.len() ==> #[trigger] outcomes[i] is Done,
    ensures
        created_registrations(names, outcomes).contains_key(k),
    decreases names.len(),
{
    let t = names.drop_last();
    let ot = outcomes.drop_last();
    assert(outcomes[outcomes.len() - 1] == outcomes.last());
    if names.last() != k {
        let j = choose|j: int| 0 <= j < names.len() && names[j] == k;
        assert(t[j] == names[j]);
        assert forall|i: int| 0 <= i < ot.len() implies #[trigger] ot[i] is Done by {
            assert(ot[i] == outcomes[i]);
        }
        lemma_created_complete(t, ot, k);
    }
}

proof fn lemma_create_names_empty(
    desired: Seq<(String, GitLabRunnerInstance)>,
    current: Map<Seq<char>, RunnerRegistration>,
    missing: Set<Seq<char>>,
)
    requires
        forall|j: int| 0 <= j < desired.len() ==> current.contains_key((#[trigger] desired[j]).0@) && !missing.contains(desired[j].0@),
    ensures
        create_names(desired, current, missing).len() == 0,
    decreases desired.len(),
{
    if desired.len() > 0 {
        let t = desired.drop_last();
        assert forall|j: int| 0 <= j < t.len() implies current.contains_key((#[trigger] t[j]).0@) && !missing.contains(t[j].0@) by {
            assert(t[j] == desired[j]);
        }
        lemma_create_names_empty(t, current, missing);
        assert(desired[desired.len() - 1] == desired.last());
    }
}

proof fn lemma_delete_entries_empty(current: Seq<(String, RunnerRegistration)>, desired: Map<Seq<char>, GitLabRunnerInstance>)
    requires
        forall|j: int| 0 <= j < current.len() ==> desired.contains_key((#[trigger] current[j]).0@),
    ensures
        delete_entries(current, desired).len() == 0,
    decreases current.len(),
{
    if current.len() > 0 {
        let t = current.drop_last();
        assert forall|j: int| 0 <= j < t.len() implies desired.contains_key((#[trigger] t[j]).0@) by {
            assert(t[j] == current[j]);
        }
        lemma_delete_entries_empty(t, desired);
        assert(current[current.len() - 1] == current.last());
    }
}

/// Reconciling again right after a reconciliation in which every creation
/// succeeded and no deletion failed makes no creation and no deletion, as
/// long as no update finds its worker missing: the second pass only updates.
pub proof fn lemma_second_pass_only_updates(
    config: GitLabRunnersConfig,
    current: NameMap<RunnerRegistration>,
    update_outcomes: Seq<RemoteOutcome<()>>,
    create_outcomes: Seq<RemoteOutcome<RunnerRegistration>>,
    delete_outcomes: Seq<RemoteOutcome<()>>,
    next: NameMap<RunnerRegistration>,
    next_update_outcomes: Seq<RemoteOutcome<()>>,
)
    requires
        config.wf(),
        current.wf(),
        next.wf(),
        update_outcomes.len() == update_names(current.entries@, config.runners@).len(),
        create_outcomes.len() == create_names(
            config.runners.entries@,
            current@,
            missing_names(update_names(current.entries@, config.runners@), update_outcomes),
        ).len(),
        delete_outcomes.len() == delete_entries(current.entries@, config.runners@).len(),
        forall|i: int| 0 <= i < create_outcomes.len() ==> #[trigger] create_outcomes[i] is Done,
        forall|i: int| 0 <= i < delete_outcomes.len() ==> !(#[trigger] delete_outcomes[i] is Failed),
        next@ == reconciled(
            kept_after_update(update_names(current.entries@, config.runners@), update_outcomes, current@),
            create_names(
                config.runners.entries@,
                current@,
                missing_names(update_names(current.entries@, config.runners@), update_outcomes),
            ),
            create_outcomes,
            delete_entries(current.entries@, config.runners@),
            delete_outcomes,
        ),
        next_update_outcomes.len() == update_names(next.entries@, config.runners@).len(),
        forall|i: int| 0 <= i < next_update_outcomes.len() ==> !(#[trigger] next_update_outcomes[i] is NotFound),
    ensures
        create_names(
            config.runners.entries@,
            next@,
            missing_names(update_names(next.entries@, config.runners@), next_update_outcomes),
        ).len() == 0,
        delete_entries(next.entries@, config.runners@).len() == 0,
{
    let d = config.runners.entries@;
    let un = update_names(current.entries@, config.runners@);
    let missing = missing_names(un, update_outcomes);
    let cn = create_names(d, current@, missing);
    let de = delete_entries(current.entries@, config.runners@);
    let missing2 = missing_names(update_names(next.entries@, config.runners@), next_update_outcomes);
    // every desired instance holds a registration after the first pass
    assert forall|j: int| 0 <= j < d.len() implies next@.contains_key((#[trigger] d[j]).0@) && !missing2.contains(d[j].0@) by {
        let k = d[j].0@;
        lemma_no_missing(update_names(next.entries@, config.runners@), next_update_outcomes, k);
        crate::name_map::lemma_entries_map_index(d, j);
        if current@.contains_key(k) && !missing.contains(k) {
            lemma_update_names_complete(current.entries@, config.runners@, k);
            lemma_kept_complete(un, update_outcomes, current@, k);
        } else {
            lemma_create_names_complete(d, current@, missing, k);
            lemma_created_complete(cn, create_outcomes, k);
        }
    }
    lemma_create_names_empty(d, next@, missing2);
    // and every registration belongs to a desired instance
    assert forall|j: int| 0 <= j < next.entries@.len() implies config.runners@.contains_key((#[trigger] next.entries@[j]).0@) by {
        let k = next.entries@[j].0@;
        crate::name_map::lemma_entries_map_index(next.entries@, j);
        lemma_reconciled_keys(config, current, update_outcomes, create_outcomes, delete_outcomes, k);
        if !config.runners@.contains_key(k) {
            let w = choose|w: int|
                0 <= w < de.len() && #[trigger] de[w].0 == k && delete_outcomes[w] is Failed;
        }
    }
    lemma_delete_entries_empty(next.entries@, config.runners@);
}

} // verus!
