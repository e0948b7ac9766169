use vstd::prelude::*;

use crate::model::{contains_id, duplicate_all, unique_ids, views, App, AppView, NIL_ID};

verus! {

/// Why a registry operation did not take place.
#[derive(Debug, Clone, Copy, PartialEq, Eq, Structural)]
pub enum RegistryError {
    /// No entry carries the given id.
    NotFound,
    /// An entry with the resolved id already exists.
    DuplicateId,
    /// The resolved id is the nil id.
    NilId,
}

/// The id that a created entry receives: its own, unless that is nil.
pub open spec fn resolved_id(own: u128, fresh: u128) -> u128 {
    if own == NIL_ID {
        fresh
    } else {
        own
    }
}

/// The collection after appending `p` under `id`, or why that is refused.
pub open spec fn spec_create(s: Seq<AppView>, p: AppView, id: u128) -> Result<Seq<AppView>, RegistryError> {
    if id == NIL_ID {
        Err(RegistryError::NilId)
    } else if contains_id(s, id) {
        Err(RegistryError::DuplicateId)
    } else {
        Ok(s.push(p.with_id(id)))
    }
}

/// The collection with the editable fields of the entry `id` taken from `p`,
/// or `None` when no entry carries `id`.
pub open spec fn spec_update(s: Seq<AppView>, id: u128, p: AppView) -> Option<Seq<AppView>> {
    if contains_id(s, id) {
        Some(s.map_values(|a: AppView| if a.id == id { a.with_fields_of(p) } else { a }))
    } else {
        None
    }
}

/// The position of an entry that carries `id` (the only one, where ids are unique).
pub open spec fn index_of(s: Seq<AppView>, id: u128) -> int
    recommends
        contains_id(s, id),
{
    choose|i: int| 0 <= i < s.len() && s[i].id == id
}

/// The collection without the entry `id`, or `None` when no entry carries it.
pub open spec fn spec_delete(s: Seq<AppView>, id: u128) -> Option<Seq<AppView>> {
    if contains_id(s, id) {
        Some(s.remove(index_of(s, id)))
    } else {
        None
    }
}

/// A create with the resolved id `id` took place as [`spec_create`] says:
/// `r` and the new collection `t` against the old one `s`.
pub open spec fn created(s: Seq<AppView>, p: AppView, id: u128, r: Result<App, RegistryError>, t: Seq<AppView>) -> bool {
    match spec_create(s, p, id) {
        Ok(u) => t == u && match r {
            Ok(a) => a@ == p.with_id(id),
            Err(_) => false,
        },
        Err(e) => t == s && r == Err::<App, RegistryError>(e),
    }
}

/// Relies on uuid::Uuid::new_v4 and Uuid::as_u128: a random UUID with the
/// version nibble 4 and the variant bits 0b10, read as a big-endian integer.
#[verifier::external_body]
fn new_id() -> (r: u128)
    ensures
        r & 0x0000_0000_0000_f000_c000_0000_0000_0000u128 == 0x0000_0000_0000_4000_8000_0000_0000_0000u128,
{
    uuid::Uuid::new_v4().as_u128()
}

/// The registry: the live collection of apps, in insertion order, with
/// pairwise distinct ids, and the path of the file that holds its snapshot.
pub struct AppState {
    apps: Vec<App>,
    file_path: String,
}

impl View for AppState {
    type V = Seq<AppView>;

    closed spec fn view(&self) -> Seq<AppView> {
        views(self.apps@)
    }
}

/// The position in `apps` of the entry that carries `id`, if any.
fn position_of(apps: &Vec<App>, id: u128) -> (r: Option<usize>)
    ensures
        match r {
            Some(k) => k < apps@.len() && apps@[k as int].id == id,
            None => !contains_id(views(apps@), id),
        },
{
    let mut i: usize = 0;
    while i < apps.len()
        invariant
            i <= apps.len(),
            forall|j: int| 0 <= j < i ==> (#[trigger] apps@[j]).id != id,
        decreases apps.len() - i,
    {
        if apps[i].id == id {
            return Some(i);
        }
        i = i + 1;
    }
    assert forall|j: int| 0 <= j < views(apps@).len() implies (#[trigger] views(apps@)[j]).id != id by {
        assert(views(apps@)[j] == apps@[j]@);
    }
    None
}

impl AppState {
    pub open spec fn wf(&self) -> bool {
        unique_ids(self@)
    }

    /// The path of the file that holds the snapshot.
    pub closed spec fn path(&self) -> Seq<char> {
        self.file_path@
    }

    pub fn file_path(&self) -> (r: &String)
        ensures
            r@ == self.path(),
    {
        &self.file_path
    }

    /// A copy of the collection, in insertion order.
    pub fn snapshot(&self) -> (r: Vec<App>)
        ensures
            views(r@) == self@,
    {
        duplicate_all(&self.apps)
    }
}

/// Every entry of the registry, in insertion order.
pub fn list_apps(state: &AppState) -> (r: Vec<App>)
    ensures
        views(r@) == state@,
{
    state.snapshot()
}

/// Stores `payload`, under its own id, or under `fresh` where its own is nil.
/// The id must be neither nil nor taken; on refusal nothing changes.
pub fn create_app_with(state: &mut AppState, payload: App, fresh: u128) -> (r: Result<App, RegistryError>)
    requires
        old(state).wf(),
    ensures
        final(state).wf(),
        final(state).path() == old(state).path(),
        created(old(state)@, payload@, resolved_id(payload.id, fresh), r, final(state)@),
{
    let id = if payload.id == NIL_ID { fresh } else { payload.id };
    if id == NIL_ID {
        return Err(RegistryError::NilId);
    }
    if let Some(k) = position_of(&state.apps, id) {
        assert(state@[k as int].id == id);
        return Err(RegistryError::DuplicateId);
    }
    let app = App { id, ..payload };
    let stored = app.duplicate();
    let ghost before = state@;
    state.apps.push(app);
    assert(state@ =~= before.push(payload@.with_id(id)));
    proof {
        lemma_create_keeps_unique(before, payload@, id);
    }
    Ok(stored)
}

/// Stores `payload`; where its id is nil, a fresh random id is drawn for it.
/// A drawn id is never nil; whether it is taken is only known afterwards.
pub fn create_app(state: &mut AppState, payload: App) -> (r: Result<App, RegistryError>)
    requires
        old(state).wf(),
    ensures
        final(state).wf(),
        final(state).path() == old(state).path(),
        payload.id != NIL_ID ==> created(old(state)@, payload@, payload.id, r, final(state)@),
        payload.id == NIL_ID ==> exists|id: u128|
            id != NIL_ID && created(old(state)@, payload@, id, r, final(state)@),
{
    let fresh = if payload.id == NIL_ID {
        let drawn = new_id();
        assert(drawn != 0) by (bit_vector)
            requires
                drawn & 0x0000_0000_0000_f000_c000_0000_0000_0000u128
                    == 0x0000_0000_0000_4000_8000_0000_0000_0000u128,
        ;
        drawn
    } else {
        NIL_ID
    };
    create_app_with(state, payload, fresh)
}

/// After a create with an id that is neither nil nor taken, the collection
/// holds exactly one entry more: the payload under that id, at the end, and
/// no other entry carries that id.
pub proof fn lemma_create_then_list(s: Seq<AppView>, p: AppView, id: u128)
    requires
        unique_ids(s),
        id != NIL_ID,
        !contains_id(s, id),
    ensures
        spec_create(s, p, id) is Ok,
        ({
            let t = spec_create(s, p, id)->Ok_0;
            &&& t.len() == s.len() + 1
            &&& t.take(s.len() as int) == s
            &&& t[s.len() as int] == p.with_id(id)
            &&& unique_ids(t)
            &&& forall|i: int| 0 <= i < t.len() && #[trigger] t[i].id == id ==> i == s.len()
        }),
{
    let t = s.push(p.with_id(id));
    assert(t.take(s.len() as int) =~= s);
    lemma_create_keeps_unique(s, p, id);
}

/// Appending under an id that is not taken keeps the ids distinct.
pub proof fn lemma_create_keeps_unique(s: Seq<AppView>, p: AppView, id: u128)
    requires
        unique_ids(s),
        !contains_id(s, id),
    ensures
        unique_ids(s.push(p.with_id(id))),
{
    let t = s.push(p.with_id(id));
    assert forall|i: int, j: int|
        0 <= i < t.len() && 0 <= j < t.len() && i != j implies (#[trigger] t[i]).id != (#[trigger] t[j]).id by {
        if i < s.len() && j < s.len() {
            assert(t[i] == s[i] && t[j] == s[j]);
        } else if i < s.len() {
            assert(t[i] == s[i]);
        } else {
            assert(t[j] == s[j]);
        }
    }
}

/// Overwrites name, description, command and url of the entry `id` with those
/// of `payload` (whose own id is ignored). Unknown id: `NotFound`, no change.
pub fn update_app(state: &mut AppState, id: u128, payload: App) -> (r: Result<(), RegistryError>)
    requires
        old(state).wf(),
    ensures
        final(state).wf(),
        final(state).path() == old(state).path(),
        match spec_update(old(state)@, id, payload@) {
            Some(t) => r is Ok && final(state)@ == t,
            None => r == Err::<(), RegistryError>(RegistryError::NotFound) && final(state)@ == old(state)@,
        },
{
    match position_of(&state.apps, id) {
        None => Err(RegistryError::NotFound),
        Some(k) => {
            let ghost before = state@;
            let ghost p = payload@;
            assert(before[k as int].id == id);
            let app = App {
                id,
                name: payload.name,
                description: payload.description,
                command: payload.command,
                url: payload.url,
            };
            state.apps.remove(k);
            state.apps.insert(k, app);
            let ghost t = before.map_values(|a: AppView| if a.id == id { a.with_fields_of(p) } else { a });
            assert forall|i: int| 0 <= i < before.len() implies #[trigger] state@[i] == t[i] by {
                if i != k {
                    assert(before[i].id != before[k as int].id);
                }
            }
            assert(state@ =~= t);
            assert forall|i: int| 0 <= i < t.len() implies #[trigger] t[i].id == before[i].id by {}
            Ok(())
        },
    }
}

/// Removes the entry `id`. Unknown id: `NotFound`, no change.
pub fn delete_app(state: &mut AppState, id: u128) -> (r: Result<(), RegistryError>)
    requires
        old(state).wf(),
    ensures
        final(state).wf(),
        final(state).path() == old(state).path(),
        match spec_delete(old(state)@, id) {
            Some(t) => r is Ok && final(state)@ == t,
            None => r == Err::<(), RegistryError>(RegistryError::NotFound) && final(state)@ == old(state)@,
        },
{
    match position_of(&state.apps, id) {
        None => Err(RegistryError::NotFound),
        Some(k) => {
            let ghost before = state@;
            assert(before[k as int].id == id);
            proof {
                lemma_index_of_unique(before, id, k as int);
            }
            state.apps.remove(k);
            assert(state@ =~= before.remove(k as int));
            proof {
                lemma_remove_keeps_unique(before, k as int);
            }
            Ok(())
        },
    }
}

/// A copy of the entry `id`, if there is one.
pub fn find_app(state: &AppState, id: u128) -> (r: Option<App>)
    requires
        state.wf(),
    ensures
        match r {
            Some(a) => a.id == id && a@ == state@[index_of(state@, id)],
            None => !contains_id(state@, id),
        },
        r is Some <==> contains_id(state@, id),
{
    match position_of(&state.apps, id) {
        None => None,
        Some(k) => {
            assert(state@[k as int].id == id);
            proof {
                lemma_index_of_unique(state@, id, k as int);
            }
            Some(state.apps[k].duplicate())
        },
    }
}

/// Where ids are distinct, the one entry that carries `id` is at `index_of`.
pub proof fn lemma_index_of_unique(s: Seq<AppView>, id: u128, k: int)
    requires
        unique_ids(s),
        0 <= k < s.len(),
        s[k].id == id,
    ensures
        index_of(s, id) == k,
{
    let i = index_of(s, id);
    assert(contains_id(s, id));
    if i != k {
        assert(s[i].id != s[k].id);
    }
}

/// Removing one entry keeps the ids distinct.
pub proof fn lemma_remove_keeps_unique(s: Seq<AppView>, k: int)
    requires
        unique_ids(s),
        0 <= k < s.len(),
    ensures
        unique_ids(s.remove(k)),
        forall|i: int| 0 <= i < s.len() && i != k ==> #[trigger] s.remove(k).contains(s[i]),
        forall|a: AppView| #[trigger] s.remove(k).contains(a) ==> s.contains(a),
{
    let t = s.remove(k);
    assert forall|i: int, j: int|
        0 <= i < t.len() && 0 <= j < t.len() && i != j implies (#[trigger] t[i]).id != (#[trigger] t[j]).id by {
        let ii = if i < k { i } else { i + 1 };
        let jj = if j < k { j } else { j + 1 };
        assert(t[i] == s[ii] && t[j] == s[jj]);
    }
    assert forall|i: int| 0 <= i < s.len() && i != k implies #[trigger] t.contains(s[i]) by {
        if i < k {
            assert(t[i] == s[i]);
        } else {
            assert(t[i - 1] == s[i]);
        }
    }
    assert forall|a: AppView| #[trigger] t.contains(a) implies s.contains(a) by {
        let i = choose|i: int| 0 <= i < t.len() && t[i] == a;
        if i < k {
            assert(s[i] == a);
        } else {
            assert(s[i + 1] == a);
        }
    }
}

/// The entries of `s` in order, each id kept at its first occurrence only.
pub open spec fn first_of_each(s: Seq<AppView>) -> Seq<AppView>
    decreases s.len(),
{
    if s.len() == 0 {
        Seq::empty()
    } else {
        let r = first_of_each(s.drop_last());
        if contains_id(r, s.last().id) {
            r
        } else {
            r.push(s.last())
        }
    }
}

/// The entries of `apps`, each id kept at its first occurrence only.
fn keep_first_of_each(apps: &Vec<App>) -> (r: Vec<App>)
    ensures
        views(r@) == first_of_each(views(apps@)),
        unique_ids(views(r@)),
{
    let mut r: Vec<App> = Vec::new();
    let mut i: usize = 0;
    while i < apps.len()
        invariant
            i <= apps.len(),
            views(r@) == first_of_each(views(apps@).take(i as int)),
            unique_ids(views(r@)),
        decreases apps.len() - i,
    {
        let ghost pre = views(apps@).take(i as int + 1);
        assert(pre.drop_last() =~= views(apps@).take(i as int));
        assert(pre.last() == apps@[i as int]@);
        let a = apps[i].duplicate();
        match position_of(&r, a.id) {
            None => {
                let ghost before = views(r@);
                r.push(a);
                assert(views(r@) =~= before.push(a@));
                proof {
                    lemma_create_keeps_unique(before, a@, a.id);
                    assert(a@.with_id(a.id) == a@);
                }
            },
            Some(k) => {
                assert(views(r@)[k as int].id == a.id);
            },
        }
        i = i + 1;
    }
    assert(views(apps@).take(i as int) =~= views(apps@));
    r
}

impl AppState {
    /// A registry over the snapshot `stored`, kept at `file_path`. No snapshot
    /// (a missing or unreadable file) gives an empty registry. Where the
    /// snapshot repeats an id, the first entry with it is kept.
    pub fn new(file_path: &str, stored: Option<Vec<App>>) -> (r: AppState)
        ensures
            r.wf(),
            r.path() == file_path@,
            match stored {
                Some(v) => r@ == first_of_each(views(v@)),
                None => r@ == Seq::<AppView>::empty(),
            },
    {
        let apps = match stored {
            Some(v) => keep_first_of_each(&v),
            None => Vec::new(),
        };
        proof {
            assert(views(Seq::<App>::empty()) =~= Seq::<AppView>::empty());
        }
        AppState { apps, file_path: String::from_str(file_path) }
    }
}

/// An update of an id that no entry carries changes nothing.
pub proof fn lemma_update_unknown(s: Seq<AppView>, id: u128, p: AppView)
    requires
        !contains_id(s, id),
    ensures
        spec_update(s, id, p) is None,
{
}

/// Deleting an entry that exists removes it and no other; deleting it again
/// finds nothing.
pub proof fn lemma_delete_twice(s: Seq<AppView>, id: u128)
    requires
        unique_ids(s),
        contains_id(s, id),
    ensures
        spec_delete(s, id) is Some,
        ({
            let t = spec_delete(s, id)->Some_0;
            &&& t.len() == s.len() - 1
            &&& !contains_id(t, id)
            &&& spec_delete(t, id) is None
            &&& forall|a: AppView| #[trigger] s.contains(a) && a.id != id ==> t.contains(a)
            &&& forall|a: AppView| #[trigger] t.contains(a) ==> s.contains(a)
        }),
{
    let k = index_of(s, id);
    let t = s.remove(k);
    lemma_remove_keeps_unique(s, k);
    if contains_id(t, id) {
        let i = choose|i: int| 0 <= i < t.len() && t[i].id == id;
        let ii = if i < k { i } else { i + 1 };
        assert(t[i] == s[ii]);
        assert(s[ii].id != s[k].id);
    }
    assert forall|a: AppView| #[trigger] s.contains(a) && a.id != id implies t.contains(a) by {
        let i = choose|i: int| 0 <= i < s.len() && s[i] == a;
        assert(t.contains(s[i]));
    }
}

/// A snapshot with distinct ids is loaded back whole, in order.
pub proof fn lemma_reload_keeps_all(s: Seq<AppView>)
    requires
        unique_ids(s),
    ensures
        first_of_each(s) == s,
    decreases s.len(),
{
    if s.len() > 0 {
        let init = s.drop_last();
        assert(unique_ids(init)) by {
            assert forall|i: int, j: int|
                0 <= i < init.len() && 0 <= j < init.len() && i != j implies (#[trigger] init[i]).id != (#[trigger] init[j]).id by {
                assert(init[i] == s[i] && init[j] == s[j]);
            }
        }
        lemma_reload_keeps_all(init);
        if contains_id(init, s.last().id) {
            let i = choose|i: int| 0 <= i < init.len() && init[i].id == s.last().id;
            assert(init[i] == s[i]);
            assert(s[i].id != s[s.len() - 1].id);
        }
        assert(init.push(s.last()) =~= s);
    }
}

/// Each request of a series of creates, applied in turn, or the first refusal.
pub open spec fn apply_creates(s: Seq<AppView>, reqs: Seq<(AppView, u128)>) -> Result<Seq<AppView>, RegistryError>
    decreases reqs.len(),
{
    if reqs.len() == 0 {
        Ok(s)
    } else {
        match apply_creates(s, reqs.drop_last()) {
            Ok(t) => spec_create(t, reqs.last().0, reqs.last().1),
            Err(e) => Err(e),
        }
    }
}

/// A series of creates whose ids are non-nil, distinct, and not yet taken,
/// applied in any order, loses none: each adds its own entry, and the ids
/// stay distinct.
pub proof fn lemma_creates_accumulate(s: Seq<AppView>, reqs: Seq<(AppView, u128)>)
    requires
        unique_ids(s),
        forall|i: int| 0 <= i < reqs.len() ==> (#[trigger] reqs[i]).1 != NIL_ID && !contains_id(s, reqs[i].1),
        forall|i: int, j: int| 0 <= i < reqs.len() && 0 <= j < reqs.len() && i != j ==> (#[trigger] reqs[i]).1 != (#[trigger] reqs[j]).1,
    ensures
        apply_creates(s, reqs) is Ok,
        ({
            let t = apply_creates(s, reqs)->Ok_0;
            &&& t.len() == s.len() + reqs.len()
            &&& unique_ids(t)
            &&& forall|i: int| 0 <= i < reqs.len() ==> #[trigger] t[s.len() + i] == reqs[i].0.with_id(reqs[i].1)
            &&& forall|i: int| 0 <= i < s.len() ==> #[trigger] t[i] == s[i]
        }),
    decreases reqs.len(),
{
    if reqs.len() > 0 {
        let init = reqs.drop_last();
        assert forall|i: int| 0 <= i < init.len() implies (#[trigger] init[i]).1 != NIL_ID && !contains_id(s, init[i].1) by {
            assert(init[i] == reqs[i]);
        }
        assert forall|i: int, j: int| 0 <= i < init.len() && 0 <= j < init.len() && i != j implies (#[trigger] init[i]).1 != (#[trigger] init[j]).1 by {
            assert(init[i] == reqs[i] && init[j] == reqs[j]);
        }
        lemma_creates_accumulate(s, init);
        let t = apply_creates(s, init)->Ok_0;
        let (p, id) = reqs.last();
        assert(reqs[reqs.len() - 1] == reqs.last());
        if contains_id(t, id) {
            let i = choose|i: int| 0 <= i < t.len() && t[i].id == id;
            if i < s.len() {
                assert(t[i] == s[i]);
            } else {
                let j = i - s.len();
                assert(t[s.len() + j] == init[j].0.with_id(init[j].1));
                assert(init[j] == reqs[j]);
            }
        }
        lemma_create_keeps_unique(t, p, id);
        let u = t.push(p.with_id(id));
        assert forall|i: int| 0 <= i < reqs.len() implies #[trigger] u[s.len() + i] == reqs[i].0.with_id(reqs[i].1) by {
            if i < init.len() {
                assert(init[i] == reqs[i]);
                assert(t[s.len() + i] == init[i].0.with_id(init[i].1));
            }
        }
    }
}

} // verus!
