//! An in-memory picture of the parts of the configuration store that
//! installation reads and writes: named keys holding named, typed values.
//! Lookups find the first entry of a name, and writes replace it, so a key
//! behaves as a map from names to data.
use vstd::prelude::*;

verus! {

/// The data of one value: a 32-bit number or a string.
#[derive(PartialEq, Eq)]
pub enum RegData {
    Dword(u32),
    Text(String),
}

/// What a value holds, as the contracts see it.
pub enum RegDataView {
    Dword(u32),
    Text(Seq<char>),
}

impl View for RegData {
    type V = RegDataView;

    open spec fn view(&self) -> RegDataView {
        match self {
            RegData::Dword(n) => RegDataView::Dword(*n),
            RegData::Text(s) => RegDataView::Text(s@),
        }
    }
}

/// A named value inside a key.
pub struct RegValue {
    pub name: String,
    pub data: RegData,
}

/// A named sub-key with its values.
pub struct RegKeyData {
    pub name: String,
    pub values: Vec<RegValue>,
}

/// The store locations that installation works on.
pub struct Store {
    /// Sub-keys of the per-user language profile root, one per profile.
    pub user_profile: Vec<RegKeyData>,
    /// The current user's layout substitutes: substitute id -> layout id.
    pub substitutes_user: Vec<RegValue>,
    /// The default ("all users") profile's layout substitutes.
    pub substitutes_all: Vec<RegValue>,
    /// The current user's preload table: position -> substitute id.
    pub preload_user: Vec<RegValue>,
    /// The default ("all users") profile's preload table.
    pub preload_all: Vec<RegValue>,
    /// The machine-wide keyboard layout driver registrations.
    pub keyboard_layouts: Vec<RegKeyData>,
}

/// `i` is the first position of a value named `name`.
pub open spec fn first_value(vals: Seq<RegValue>, name: Seq<char>, i: int) -> bool {
    &&& 0 <= i < vals.len()
    &&& vals[i].name@ == name
    &&& forall|j: int| 0 <= j < i ==> (#[trigger] vals[j]).name@ != name
}

pub open spec fn has_value(vals: Seq<RegValue>, name: Seq<char>) -> bool {
    exists|i: int| 0 <= i < vals.len() && (#[trigger] vals[i]).name@ == name
}

/// The data stored under `name`, if any.
pub open spec fn lookup(vals: Seq<RegValue>, name: Seq<char>) -> Option<RegDataView> {
    if has_value(vals, name) {
        let i = choose|i: int| first_value(vals, name, i);
        Some(vals[i].data@)
    } else {
        None
    }
}

/// `new` is `old` after storing `data` under `name`: the first entry of
/// that name gets the new data, or a new entry is added at the end.
pub open spec fn set_into(
    old: Seq<RegValue>,
    new: Seq<RegValue>,
    name: Seq<char>,
    data: RegDataView,
) -> bool {
    if has_value(old, name) {
        let i = choose|i: int| first_value(old, name, i);
        &&& new.len() == old.len()
        &&& new[i].name == old[i].name
        &&& new[i].data@ == data
        &&& forall|j: int| 0 <= j < old.len() && j != i ==> new[j] == old[j]
    } else {
        &&& new.len() == old.len() + 1
        &&& new.drop_last() == old
        &&& new.last().name@ == name
        &&& new.last().data@ == data
    }
}

proof fn lemma_has_first(vals: Seq<RegValue>, name: Seq<char>)
    requires
        has_value(vals, name),
    ensures
        exists|i: int| first_value(vals, name, i),
    decreases vals.len(),
{
    let init = vals.drop_last();
    if has_value(init, name) {
        lemma_has_first(init, name);
        let i = choose|i: int| first_value(init, name, i);
        assert forall|j: int| 0 <= j < i implies (#[trigger] vals[j]).name@ != name by {
            assert(vals[j] == init[j]);
        }
        assert(first_value(vals, name, i));
    } else {
        let n = vals.len() - 1;
        assert forall|j: int| 0 <= j < n implies (#[trigger] vals[j]).name@ != name by {
            assert(vals[j] == init[j]);
        }
        let k = choose|k: int| 0 <= k < vals.len() && (#[trigger] vals[k]).name@ == name;
        if k < n {
            assert(init[k] == vals[k]);
        }
        assert(first_value(vals, name, n));
    }
}

/// After a write, the name holds the new data and every other name keeps
/// what it held.
pub proof fn lemma_lookup_after_set(
    old: Seq<RegValue>,
    new: Seq<RegValue>,
    name: Seq<char>,
    data: RegDataView,
    other: Seq<char>,
)
    requires
        set_into(old, new, name, data),
    ensures
        lookup(new, name) == Some(data),
        other != name ==> lookup(new, other) == lookup(old, other),
{
    if has_value(old, other) {
        lemma_has_first(old, other);
    }
    if has_value(old, name) {
        lemma_has_first(old, name);
        let i = choose|i: int| first_value(old, name, i);
        assert forall|j: int| 0 <= j < i implies (#[trigger] new[j]).name@ != name by {
            assert(new[j] == old[j]);
        }
        assert(first_value(new, name, i));
        let k = choose|k: int| first_value(new, name, k);
        lemma_first_value_unique(new, name, i, k);
        if other != name {
            if has_value(old, other) {
                let a = choose|a: int| first_value(old, other, a);
                assert(new[a] == old[a]);
                assert forall|j: int| 0 <= j < a implies (#[trigger] new[j]).name@ != other by {
                    if j != i {
                        assert(new[j] == old[j]);
                    }
                }
                assert(first_value(new, other, a));
                let b = choose|b: int| first_value(new, other, b);
                lemma_first_value_unique(new, other, a, b);
            } else {
                assert forall|j: int| 0 <= j < new.len() implies (#[trigger] new[j]).name@ != other by {
                    if j != i {
                        assert(new[j] == old[j]);
                    }
                }
            }
        }
    } else {
        let n = new.len() - 1;
        assert forall|j: int| 0 <= j < n implies (#[trigger] new[j]).name@ != name by {
            assert(new[j] == old[j]);
        }
        assert(first_value(new, name, n));
        let k = choose|k: int| first_value(new, name, k);
        lemma_first_value_unique(new, name, n, k);
        if other != name {
            if has_value(old, other) {
                let a = choose|a: int| first_value(old, other, a);
                assert(new[a] == old[a]);
                assert forall|j: int| 0 <= j < a implies (#[trigger] new[j]).name@ != other by {
                    assert(new[j] == old[j]);
                }
                assert(first_value(new, other, a));
                let b = choose|b: int| first_value(new, other, b);
                lemma_first_value_unique(new, other, a, b);
            } else {
                assert forall|j: int| 0 <= j < new.len() implies (#[trigger] new[j]).name@ != other by {
                    if j < n {
                        assert(new[j] == old[j]);
                    }
                }
            }
        }
    }
}

/// `i` is the first position of a sub-key named `name`.
pub open spec fn first_key(keys: Seq<RegKeyData>, name: Seq<char>, i: int) -> bool {
    &&& 0 <= i < keys.len()
    &&& keys[i].name@ == name
    &&& forall|j: int| 0 <= j < i ==> (#[trigger] keys[j]).name@ != name
}

pub open spec fn has_key(keys: Seq<RegKeyData>, name: Seq<char>) -> bool {
    exists|i: int| 0 <= i < keys.len() && (#[trigger] keys[i]).name@ == name
}

/// The position of the sub-key named `name`; meaningful where `has_key` holds.
pub open spec fn key_index(keys: Seq<RegKeyData>, name: Seq<char>) -> int {
    choose|i: int| first_key(keys, name, i)
}

proof fn lemma_first_value_unique(vals: Seq<RegValue>, name: Seq<char>, i: int, j: int)
    requires
        first_value(vals, name, i),
        first_value(vals, name, j),
    ensures
        i == j,
{
    if i < j {
        assert(vals[i].name@ != name);
    } else if j < i {
        assert(vals[j].name@ != name);
    }
}

/// The position of the first value named `name`.
pub fn find_value(vals: &Vec<RegValue>, name: &String) -> (r: Option<usize>)
    ensures
        r matches Some(i) ==> first_value(vals@, name@, i as int),
        r is None <==> !has_value(vals@, name@),
{
    let mut i: usize = 0;
    while i < vals.len()
        invariant
            i <= vals@.len(),
            forall|j: int| 0 <= j < i ==> (#[trigger] vals@[j]).name@ != name@,
        decreases vals@.len() - i,
    {
        if vals[i].name == *name {
            return Some(i);
        }
        i = i + 1;
    }
    None
}

/// The data stored under `name`, if any.
pub fn get_value<'a>(vals: &'a Vec<RegValue>, name: &String) -> (r: Option<&'a RegData>)
    ensures
        match r {
            Some(d) => lookup(vals@, name@) == Some(d@),
            None => lookup(vals@, name@) is None,
        },
{
    match find_value(vals, name) {
        Some(i) => {
            proof {
                let k = choose|k: int| first_value(vals@, name@, k);
                lemma_first_value_unique(vals@, name@, i as int, k);
            }
            Some(&vals[i].data)
        },
        None => None,
    }
}

/// Stores `data` under `name`.
pub fn set_value(vals: &mut Vec<RegValue>, name: String, data: RegData)
    ensures
        set_into(old(vals)@, final(vals)@, name@, data@),
{
    match find_value(vals, &name) {
        Some(i) => {
            proof {
                let k = choose|k: int| first_value(old(vals)@, name@, k);
                lemma_first_value_unique(old(vals)@, name@, i as int, k);
            }
            let old_entry = vals.remove(i);
            vals.insert(i, RegValue { name: old_entry.name, data });
            assert(vals@[i as int].data@ == data@);
        },
        None => {
            vals.push(RegValue { name, data });
            assert(vals@.drop_last() =~= old(vals)@);
        },
    }
}

/// The position of the first sub-key named `name`.
pub fn find_key(keys: &Vec<RegKeyData>, name: &String) -> (r: Option<usize>)
    ensures
        r matches Some(i) ==> first_key(keys@, name@, i as int) && i == key_index(keys@, name@),
        r is None <==> !has_key(keys@, name@),
{
    let mut i: usize = 0;
    while i < keys.len()
        invariant
            i <= keys@.len(),
            forall|j: int| 0 <= j < i ==> (#[trigger] keys@[j]).name@ != name@,
        decreases keys@.len() - i,
    {
        if keys[i].name == *name {
            proof {
                let k = key_index(keys@, name@);
                assert(first_key(keys@, name@, i as int));
                if k < i {
                    assert(keys@[k].name@ != name@);
                } else if i < k {
                    assert(keys@[i as int].name@ != name@);
                }
            }
            return Some(i);
        }
        i = i + 1;
    }
    None
}

/// The layout substitutes of the current user or of all users.
pub fn kbd_layout_sub_regkey(store: &Store, is_all_users: bool) -> (r: &Vec<RegValue>)
    ensures
        r == if is_all_users {
            &store.substitutes_all
        } else {
            &store.substitutes_user
        },
{
    if is_all_users {
        &store.substitutes_all
    } else {
        &store.substitutes_user
    }
}

/// The preload table of the current user or of all users.
pub fn kbd_layout_preload_regkey(store: &Store, is_all_users: bool) -> (r: &Vec<RegValue>)
    ensures
        r == if is_all_users {
            &store.preload_all
        } else {
            &store.preload_user
        },
{
    if is_all_users {
        &store.preload_all
    } else {
        &store.preload_user
    }
}

} // verus!
