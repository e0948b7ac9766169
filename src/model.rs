use vstd::prelude::*;

verus! {

/// The identifier that stands for "no id given": an all-zero UUID.
pub const NIL_ID: u128 = 0;

/// One managed entry: a named shell command with its metadata.
///
/// `id` holds the 128 bits of a UUID, most significant byte first.
pub struct App {
    pub id: u128,
    pub name: String,
    pub description: Option<String>,
    pub command: String,
    pub url: String,
}

/// The mathematical value of an [`App`]: its fields as character sequences.
pub struct AppView {
    pub id: u128,
    pub name: Seq<char>,
    pub description: Option<Seq<char>>,
    pub command: Seq<char>,
    pub url: Seq<char>,
}

pub open spec fn opt_view(s: Option<String>) -> Option<Seq<char>> {
    match s {
        Some(t) => Some(t@),
        None => None,
    }
}

impl View for App {
    type V = AppView;

    open spec fn view(&self) -> AppView {
        AppView {
            id: self.id,
            name: self.name@,
            description: opt_view(self.description),
            command: self.command@,
            url: self.url@,
        }
    }
}

impl AppView {
    /// The same entry under another identifier.
    pub open spec fn with_id(self, id: u128) -> AppView {
        AppView { id, ..self }
    }

    /// This entry with its four editable fields taken from `p`; the id stays.
    pub open spec fn with_fields_of(self, p: AppView) -> AppView {
        AppView { id: self.id, ..p }
    }
}

/// The views of a sequence of apps, in order.
pub open spec fn views(s: Seq<App>) -> Seq<AppView> {
    s.map_values(|a: App| a@)
}

/// Some entry of `s` carries `id`.
pub open spec fn contains_id(s: Seq<AppView>, id: u128) -> bool {
    exists|i: int| 0 <= i < s.len() && (#[trigger] s[i]).id == id
}

/// No two entries of `s` carry the same id.
pub open spec fn unique_ids(s: Seq<AppView>) -> bool {
    forall|i: int, j: int|
        0 <= i < s.len() && 0 <= j < s.len() && i != j ==> (#[trigger] s[i]).id != (#[trigger] s[j]).id
}

fn copy_opt(s: &Option<String>) -> (r: Option<String>)
    ensures
        opt_view(r) == opt_view(*s),
{
    match s {
        Some(t) => Some(t.clone()),
        None => None,
    }
}

impl App {
    /// A field-for-field copy.
    pub fn duplicate(&self) -> (r: App)
        ensures
            r@ == self@,
    {
        App {
            id: self.id,
            name: self.name.clone(),
            description: copy_opt(&self.description),
            command: self.command.clone(),
            url: self.url.clone(),
        }
    }
}

/// A copy of every entry of `apps`, in order.
pub fn duplicate_all(apps: &Vec<App>) -> (r: Vec<App>)
    ensures
        views(r@) == views(apps@),
{
    let mut r: Vec<App> = Vec::new();
    let mut i: usize = 0;
    while i < apps.len()
        invariant
            i <= apps.len(),
            r@.len() == i,
            forall|k: int| 0 <= k < i ==> (#[trigger] r@[k])@ == apps@[k]@,
        decreases apps.len() - i,
    {
        r.push(apps[i].duplicate());
        i = i + 1;
    }
    assert(views(r@) =~= views(apps@));
    r
}

} // verus!
