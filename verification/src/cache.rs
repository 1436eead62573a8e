use vstd::prelude::*;

verus! {

#[verifier::external_type_specification]
#[verifier::external_body]
#[verifier::reject_recursive_types(K)]
#[verifier::reject_recursive_types(V)]
#[verifier::reject_recursive_types(S)]
pub struct ExDashMap<K, V, S>(dashmap::DashMap<K, V, S>);

/// The store that holds nothing.
pub open spec fn no_entries() -> Map<Seq<char>, Seq<char>> {
    Map::empty()
}

/// What the shared store holds: each stored name's content.
pub uninterp spec fn store_entries(m: dashmap::DashMap<String, String>) -> Map<
    Seq<char>,
    Seq<char>,
>;

/// Relies on DashMap::new: the fresh map holds nothing.
#[verifier::external_body]
fn store_new() -> (m: dashmap::DashMap<String, String>)
    ensures
        store_entries(m) == no_entries(),
{
    dashmap::DashMap::new()
}

/// Relies on DashMap::insert: the entry is added under its key, every other
/// entry is untouched. (What insert hands back, the key's previous content, is
/// dropped here; callers that must not overwrite check first.)
#[verifier::external_body]
fn store_insert(m: &mut dashmap::DashMap<String, String>, k: String, v: String)
    ensures
        store_entries(*final(m)) == store_entries(*old(m)).insert(k@, v@),
{
    m.insert(k, v);
}

/// Relies on DashMap::contains_key.
#[verifier::external_body]
fn store_contains(m: &dashmap::DashMap<String, String>, k: &String) -> (b: bool)
    ensures
        b == store_entries(*m).contains_key(k@),
{
    m.contains_key(k)
}

/// Relies on DashMap::get (and Ref::value): a hit hands back a copy of the
/// stored content, a miss means the key is not in the map.
#[verifier::external_body]
fn store_get(m: &dashmap::DashMap<String, String>, k: &String) -> (r: Option<String>)
    ensures
        match r {
            Some(v) => store_entries(*m).contains_key(k@) && v@ == store_entries(*m)[k@],
            None => !store_entries(*m).contains_key(k@),
        },
{
    match m.get(k) {
        Some(entry) => Some(entry.value().clone()),
        None => None,
    }
}

/// The memoizing store that resolves snippet names to their file contents.
///
/// Entries are written once and never changed afterwards: every load a caller
/// performs is guarded by `missing_names`, which names a key only while the
/// store lacks it. A run that shares one cache across workers guards it with a
/// lock and thereby reads each snippet's backing file at most once, however
/// many pipelines ask for it.
pub struct IncludeCache {
    store: dashmap::DashMap<String, String>,
}

impl View for IncludeCache {
    type V = Map<Seq<char>, Seq<char>>;

    closed spec fn view(&self) -> Map<Seq<char>, Seq<char>> {
        store_entries(self.store)
    }
}

/// The names of `names` that are not yet stored under `m`, first occurrence
/// each: what still has to be loaded before `names` can resolve, each backing
/// file named at most once, and never one whose content is already held.
pub open spec fn missing_from(m: Map<Seq<char>, Seq<char>>, names: Seq<Seq<char>>) -> Seq<
    Seq<char>,
>
    decreases names.len(),
{
    if names.len() == 0 {
        Seq::empty()
    } else {
        let rest = missing_from(m, names.drop_last());
        let n = names.last();
        if m.contains_key(n) || rest.contains(n) {
            rest
        } else {
            rest.push(n)
        }
    }
}

/// No name is scheduled for loading while its content is held, and no name is
/// scheduled twice: at most one load of each backing file per run.
pub proof fn lemma_load_at_most_once(m: Map<Seq<char>, Seq<char>>, names: Seq<Seq<char>>)
    ensures
        forall|n: Seq<char>| m.contains_key(n) ==> !missing_from(m, names).contains(n),
        forall|i: int, j: int|
            0 <= i < j < missing_from(m, names).len() ==> missing_from(m, names)[i]
                != missing_from(m, names)[j],
        forall|n: Seq<char>| #[trigger] missing_from(m, names).contains(n) ==> names.contains(n),
        forall|i: int|
            0 <= i < names.len() && !m.contains_key(names[i]) ==> missing_from(m, names).contains(
                #[trigger] names[i],
            ),
    decreases names.len(),
{
    if names.len() > 0 {
        lemma_load_at_most_once(m, names.drop_last());
        let rest = missing_from(m, names.drop_last());
        let full = missing_from(m, names);
        assert forall|i: int|
            0 <= i < names.len() && !m.contains_key(names[i]) implies full.contains(
            #[trigger] names[i],
        ) by {
            if i == names.len() - 1 {
                let n = names.last();
                if rest.contains(n) {
                    let ix = choose|ix: int| 0 <= ix < rest.len() && rest[ix] == n;
                    assert(full[ix] == n);
                } else {
                    assert(full[full.len() - 1] == n);
                }
            } else {
                assert(names.drop_last()[i] == names[i]);
                assert(rest.contains(names[i]));
                let ix = choose|ix: int| 0 <= ix < rest.len() && rest[ix] == names[i];
                assert(full[ix] == names[i]);
            }
        }
        assert forall|n: Seq<char>| #[trigger] full.contains(n) implies names.contains(n) by {
            if rest.contains(n) {
                assert(names.drop_last().contains(n));
                let i = choose|i: int| 0 <= i < names.drop_last().len() && names.drop_last()[i] == n;
                assert(names[i] == n);
            } else {
                assert(n == names.last());
                assert(names[names.len() - 1] == n);
            }
        }
        assert forall|n: Seq<char>| m.contains_key(n) implies !full.contains(n) by {
            if full.contains(n) {
                let i = choose|i: int| 0 <= i < full.len() && full[i] == n;
                if i < rest.len() {
                    assert(rest.contains(n));
                }
            }
        }
    }
}

impl IncludeCache {
    /// A fresh, empty cache.
    pub fn new() -> (c: IncludeCache)
        ensures
            c@ == no_entries(),
    {
        IncludeCache { store: store_new() }
    }

    /// Store one snippet's content under its name. Every other entry is
    /// untouched.
    pub fn insert(&mut self, name: String, content: String)
        ensures
            final(self)@ == old(self)@.insert(name@, content@),
    {
        store_insert(&mut self.store, name, content);
    }

    /// Whether a snippet's content is already held.
    pub fn contains(&self, name: &String) -> (b: bool)
        ensures
            b == self@.contains_key(name@),
    {
        store_contains(&self.store, name)
    }

    /// A copy of a stored snippet's content.
    pub fn get(&self, name: &String) -> (r: Option<String>)
        ensures
            match r {
                Some(v) => self@.contains_key(name@) && v@ == self@[name@],
                None => !self@.contains_key(name@),
            },
    {
        store_get(&self.store, name)
    }

    /// The names of `names` whose content is not yet held, each once, in
    /// first-occurrence order: exactly the loads a caller still has to
    /// perform.
    pub fn missing_names(&self, names: &Vec<String>) -> (r: Vec<String>)
        ensures
            r.deep_view() == missing_from(self@, names.deep_view()),
    {
        let ghost all = names.deep_view();
        let mut r: Vec<String> = Vec::new();
        let mut i: usize = 0;
        while i < names.len()
            invariant
                i <= names.len(),
                all == names.deep_view(),
                r.deep_view() == missing_from(self@, all.take(i as int)),
            decreases names.len() - i,
        {
            proof {
                assert(all.take(i + 1).drop_last() =~= all.take(i as int));
                assert(all.take(i + 1).last() == all[i as int]);
            }
            let name = &names[i];
            assert(name@ == all[i as int]);
            if !self.contains(name) && !contains_name(&r, name) {
                r.push(name.clone());
                proof {
                    assert(r.deep_view() =~= missing_from(self@, all.take(i + 1)));
                }
            } else {
                proof {
                    assert(r.deep_view() =~= missing_from(self@, all.take(i + 1)));
                }
            }
            i += 1;
        }
        proof {
            assert(all.take(names.len() as int) =~= all);
        }
        r
    }

    /// Resolve an ordered request: the stored content of each name, in the
    /// request's exact order, or the first name whose content is not held.
    pub fn resolve(&self, names: &Vec<String>) -> (r: Result<Vec<String>, String>)
        ensures
            match r {
                Ok(contents) => {
                    &&& contents.deep_view().len() == names.deep_view().len()
                    &&& forall|i: int|
                        0 <= i < names.deep_view().len() ==> self@.contains_key(
                            #[trigger] names.deep_view()[i],
                        )
                    &&& forall|i: int|
                        0 <= i < names.deep_view().len() ==> #[trigger] contents.deep_view()[i]
                            == self@[names.deep_view()[i]]
                },
                Err(n) => {
                    &&& !self@.contains_key(n@)
                    &&& exists|i: int|
                        0 <= i < names.deep_view().len() && names.deep_view()[i] == n@ && (
                        forall|j: int|
                            0 <= j < i ==> self@.contains_key(#[trigger] names.deep_view()[j]))
                },
            },
    {
        let mut contents: Vec<String> = Vec::new();
        let mut i: usize = 0;
        while i < names.len()
            invariant
                i <= names.len(),
                contents.deep_view().len() == i,
                forall|j: int|
                    0 <= j < i ==> self@.contains_key(#[trigger] names.deep_view()[j]),
                forall|j: int|
                    0 <= j < i ==> #[trigger] contents.deep_view()[j] == self@[names.deep_view()[j]],
            decreases names.len() - i,
        {
            let name = &names[i];
            assert(name@ == names.deep_view()[i as int]);
            match self.get(name) {
                Some(content) => {
                    let ghost prev = contents.deep_view();
                    let ghost c = content@;
                    contents.push(content);
                    proof {
                        assert(contents.deep_view() =~= prev.push(c));
                    }
                },
                None => {
                    let missing = name.clone();
                    proof {
                        let k = i as int;
                        assert(0 <= k < names.deep_view().len() && names.deep_view()[k]
                            == missing@ && (forall|j: int|
                            0 <= j < k ==> self@.contains_key(#[trigger] names.deep_view()[j])));
                    }
                    return Err(missing);
                },
            }
            i += 1;
        }
        assert(contents.deep_view().len() == names.deep_view().len());
        Ok(contents)
    }
}

/// Whether one of the names in `v` reads as `name`.
pub fn contains_name(v: &Vec<String>, name: &String) -> (b: bool)
    ensures
        b == v.deep_view().contains(name@),
{
    let mut i: usize = 0;
    while i < v.len()
        invariant
            i <= v.len(),
            forall|j: int| 0 <= j < i ==> v.deep_view()[j] != name@,
        decreases v.len() - i,
    {
        if v[i].eq(name) {
            assert(v.deep_view()[i as int] == name@);
            return true;
        }
        i += 1;
    }
    assert(forall|j: int| 0 <= j < v.deep_view().len() ==> v.deep_view()[j] != name@);
    false
}

} // verus!
