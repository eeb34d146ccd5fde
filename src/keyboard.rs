//! Keyboard layout drivers under the machine-wide layouts key, and the
//! operation that installs a keyboard for a language.
use vstd::prelude::*;
use crate::store::{
    RegData, RegDataView, RegKeyData, RegValue, Store, find_key, get_value, has_key, has_value,
    key_index, lemma_lookup_after_set, lookup, set_value,
};
use crate::ids::{after_max, any_of, lemma_step, max_of};
use crate::text::{format_hex4_lower, format_hex8_lower, hex4_lower, hex8_lower, parse_u32, parse_u32_spec};
use crate::profile::{
    InstallError, LanguageRegKey, attach_post, create_post, resolved_lcid,
};

verus! {

/// The machine-wide keyboard layout registrations.
pub fn keyboard_layouts_regkey(store: &Store) -> (r: &Vec<RegKeyData>)
    ensures
        r == &store.keyboard_layouts,
{
    &store.keyboard_layouts
}

/// `t` ends with `suffix`.
pub open spec fn ends_with(t: Seq<char>, suffix: Seq<char>) -> bool {
    t.len() >= suffix.len() && t.subrange(t.len() - suffix.len(), t.len() as int) == suffix
}

/// The prefix (high 16 bits) of a driver key of the user-installed range
/// (names starting with `a`) registered for `lcid`; a name that is no
/// hexadecimal number counts as prefix 0.
pub open spec fn driver_prefix(k: RegKeyData, lcid: u16) -> Option<u32> {
    if k.name@.len() > 0 && k.name@[0] == 'a' && ends_with(k.name@, hex4_lower(lcid as u32)) {
        Some(
            match parse_u32_spec(k.name@, 16) {
                Some(n) => n / 0x10000,
                None => 0,
            },
        )
    } else {
        None
    }
}

pub open spec fn driver_prefixes(keys: Seq<RegKeyData>, lcid: u16) -> Seq<Option<u32>> {
    keys.map_values(|k: RegKeyData| driver_prefix(k, lcid))
}

/// The next driver key id for `lcid`: prefix 0xa000 for the first one, one
/// past the largest prefix afterwards.
pub open spec fn driver_id_after(s: Seq<Option<u32>>, lcid: u16) -> Option<u32> {
    if !any_of(s) {
        Some((0xa000 * 0x10000 + lcid) as u32)
    } else if max_of(s) < 0xFFFF {
        Some(((max_of(s) + 1) * 0x10000 + lcid) as u32)
    } else {
        None
    }
}

fn ends_with_str(t: &str, suffix: &str) -> (r: bool)
    ensures
        r == ends_with(t@, suffix@),
{
    let n = t.unicode_len();
    let m = suffix.unicode_len();
    if n < m {
        return false;
    }
    let mut i: usize = 0;
    while i < m
        invariant
            n == t@.len(),
            m == suffix@.len(),
            m <= n,
            i <= m,
            forall|j: int| 0 <= j < i ==> t@[n - m + j] == suffix@[j],
        decreases m - i,
    {
        if t.get_char(n - m + i) != suffix.get_char(i) {
            assert(t@.subrange(n - m, n as int)[i as int] != suffix@[i as int]);
            return false;
        }
        i = i + 1;
    }
    assert(t@.subrange(n - m, n as int) =~= suffix@);
    true
}

/// The id for a new layout driver key of locale `lcid`: prefix 0xa000 when
/// the locale has no user-installed driver yet, else one past the largest
/// prefix. `None` when the prefixes are used up.
pub fn first_available_keyboard_regkey_id(store: &Store, lcid: u16) -> (r: Option<u32>)
    ensures
        r == driver_id_after(driver_prefixes(store.keyboard_layouts@, lcid), lcid),
{
    let keys = keyboard_layouts_regkey(store);
    let suffix = format_hex4_lower(lcid as u32);
    let ghost s = driver_prefixes(keys@, lcid);
    let mut m: u32 = 0;
    let mut any = false;
    let mut i: usize = 0;
    while i < keys.len()
        invariant
            i <= keys@.len(),
            s == driver_prefixes(keys@, lcid),
            suffix@ == hex4_lower(lcid as u32),
            m as nat == max_of(s.take(i as int)),
            any == any_of(s.take(i as int)),
        decreases keys@.len() - i,
    {
        proof {
            lemma_step(s, i as int);
        }
        let name = keys[i].name.as_str();
        if name.unicode_len() > 0 && name.get_char(0) == 'a' && ends_with_str(name, suffix.as_str()) {
            any = true;
            let p = match parse_u32(name, 16) {
                Some(n) => n / 0x10000,
                None => 0,
            };
            if p > m {
                m = p;
            }
        }
        i = i + 1;
    }
    assert(s.take(keys@.len() as int) =~= s);
    if !any {
        Some(0xa000 * 0x10000 + lcid as u32)
    } else if m < 0xFFFF {
        Some((m + 1) * 0x10000 + lcid as u32)
    } else {
        None
    }
}

pub open spec fn layout_id_value() -> Seq<char> {
    "Layout Id"@
}

/// The layout id a driver key records: its `Layout Id` string read as
/// hexadecimal, 0 when missing or unreadable.
pub open spec fn layout_id_of(k: RegKeyData) -> Option<u32> {
    Some(
        match lookup(k.values@, layout_id_value()) {
            Some(RegDataView::Text(t)) => match parse_u32_spec(t, 16) {
                Some(n) => n,
                None => 0,
            },
            _ => 0,
        },
    )
}

pub open spec fn layout_ids(keys: Seq<RegKeyData>) -> Seq<Option<u32>> {
    keys.map_values(|k: RegKeyData| layout_id_of(k))
}

/// The layout id for a new driver: one past the largest recorded one.
pub fn first_available_layout_id(store: &Store) -> (r: Option<u32>)
    ensures
        r == after_max(layout_ids(store.keyboard_layouts@)),
{
    let keys = keyboard_layouts_regkey(store);
    let name = String::from_str("Layout Id");
    let ghost s = layout_ids(keys@);
    let mut m: u32 = 0;
    let mut i: usize = 0;
    while i < keys.len()
        invariant
            i <= keys@.len(),
            s == layout_ids(keys@),
            name@ == layout_id_value(),
            m as nat == max_of(s.take(i as int)),
        decreases keys@.len() - i,
    {
        proof {
            lemma_step(s, i as int);
        }
        let n = match get_value(&keys[i].values, &name) {
            Some(RegData::Text(t)) => match parse_u32(t.as_str(), 16) {
                Some(v) => v,
                None => 0,
            },
            _ => 0,
        };
        if n > m {
            m = n;
        }
        i = i + 1;
    }
    assert(s.take(keys@.len() as int) =~= s);
    if m < 0xFFFF_FFFF {
        Some(m + 1)
    } else {
        None
    }
}

pub open spec fn layout_file_value() -> Seq<char> {
    "Layout File"@
}

pub open spec fn layout_text_value() -> Seq<char> {
    "Layout Text"@
}

pub open spec fn product_code_value() -> Seq<char> {
    "Layout Product Code"@
}

/// One of the four values a driver registration writes.
pub open spec fn is_driver_value(name: Seq<char>) -> bool {
    name == layout_file_value() || name == layout_text_value() || name == layout_id_value() || name
        == product_code_value()
}

/// The stores agree on every location but the layout drivers.
pub open spec fn same_but_drivers(a: Store, b: Store) -> bool {
    &&& a.user_profile == b.user_profile
    &&& a.substitutes_user == b.substitutes_user
    &&& a.substitutes_all == b.substitutes_all
    &&& a.preload_user == b.preload_user
    &&& a.preload_all == b.preload_all
}

/// What registering driver key `id` with layout id `layout_id` does: the key
/// named `{id:08x}` is found or added, and holds the layout's file, text,
/// layout id (`{layout_id:04x}`) and product code; other keys stay.
pub open spec fn driver_post(
    s0: Store,
    s1: Store,
    id: u32,
    layout_id: u32,
    product_code: Seq<char>,
    layout_file: Seq<char>,
    layout_name: Seq<char>,
) -> bool {
    let name = hex8_lower(id);
    let k0 = s0.keyboard_layouts@;
    let k1 = s1.keyboard_layouts@;
    let idx = key_index(k1, name);
    &&& same_but_drivers(s0, s1)
    &&& has_key(k1, name)
    &&& lookup(k1[idx].values@, layout_file_value()) == Some(RegDataView::Text(layout_file))
    &&& lookup(k1[idx].values@, layout_text_value()) == Some(RegDataView::Text(layout_name))
    &&& lookup(k1[idx].values@, layout_id_value()) == Some(
        RegDataView::Text(hex4_lower(layout_id)),
    )
    &&& lookup(k1[idx].values@, product_code_value()) == Some(RegDataView::Text(product_code))
    &&& forall|other: Seq<char>|
        !is_driver_value(other) ==> #[trigger] lookup(k1[idx].values@, other) == (if has_key(
            k0,
            name,
        ) {
            lookup(k0[key_index(k0, name)].values@, other)
        } else {
            None
        })
    &&& has_key(k0, name) ==> k1.len() == k0.len() && idx == key_index(k0, name) && forall|j: int|
        0 <= j < k0.len() && j != idx ==> k1[j] == k0[j]
    &&& !has_key(k0, name) ==> k1.drop_last() == k0 && idx == k0.len()
}

proof fn lemma_driver_names_differ()
    ensures
        layout_file_value() != layout_text_value(),
        layout_file_value() != layout_id_value(),
        layout_file_value() != product_code_value(),
        layout_text_value() != layout_id_value(),
        layout_text_value() != product_code_value(),
        layout_id_value() != product_code_value(),
{
    reveal_strlit("Layout File");
    reveal_strlit("Layout Text");
    reveal_strlit("Layout Id");
    reveal_strlit("Layout Product Code");
    assert(layout_file_value()[7] != layout_text_value()[7]);
    assert(layout_file_value().len() != layout_id_value().len());
    assert(layout_file_value().len() != product_code_value().len());
    assert(layout_text_value().len() != layout_id_value().len());
    assert(layout_text_value().len() != product_code_value().len());
    assert(layout_id_value().len() != product_code_value().len());
}

/// Writes the four values of a driver key, keeping its other values.
fn write_driver_values(
    values: &mut Vec<RegValue>,
    layout_id: u32,
    product_code: &str,
    layout_file: &str,
    layout_name: &str,
)
    ensures
        lookup(final(values)@, layout_file_value()) == Some(RegDataView::Text(layout_file@)),
        lookup(final(values)@, layout_text_value()) == Some(RegDataView::Text(layout_name@)),
        lookup(final(values)@, layout_id_value()) == Some(
            RegDataView::Text(hex4_lower(layout_id)),
        ),
        lookup(final(values)@, product_code_value()) == Some(RegDataView::Text(product_code@)),
        forall|other: Seq<char>|
            !is_driver_value(other) ==> #[trigger] lookup(final(values)@, other) == lookup(
                old(values)@,
                other,
            ),
{
    proof {
        lemma_driver_names_differ();
    }
    let ghost v0 = values@;
    set_value(values, String::from_str("Layout File"), RegData::Text(String::from_str(layout_file)));
    let ghost v1 = values@;
    set_value(values, String::from_str("Layout Text"), RegData::Text(String::from_str(layout_name)));
    let ghost v2 = values@;
    set_value(values, String::from_str("Layout Id"), RegData::Text(format_hex4_lower(layout_id)));
    let ghost v3 = values@;
    set_value(
        values,
        String::from_str("Layout Product Code"),
        RegData::Text(String::from_str(product_code)),
    );
    proof {
        let t1 = RegDataView::Text(layout_file@);
        let t2 = RegDataView::Text(layout_name@);
        let t3 = RegDataView::Text(hex4_lower(layout_id));
        let t4 = RegDataView::Text(product_code@);
        lemma_lookup_after_set(v0, v1, layout_file_value(), t1, layout_file_value());
        lemma_lookup_after_set(v1, v2, layout_text_value(), t2, layout_file_value());
        lemma_lookup_after_set(v2, v3, layout_id_value(), t3, layout_file_value());
        lemma_lookup_after_set(v3, values@, product_code_value(), t4, layout_file_value());
        lemma_lookup_after_set(v1, v2, layout_text_value(), t2, layout_text_value());
        lemma_lookup_after_set(v2, v3, layout_id_value(), t3, layout_text_value());
        lemma_lookup_after_set(v3, values@, product_code_value(), t4, layout_text_value());
        lemma_lookup_after_set(v2, v3, layout_id_value(), t3, layout_id_value());
        lemma_lookup_after_set(v3, values@, product_code_value(), t4, layout_id_value());
        lemma_lookup_after_set(v3, values@, product_code_value(), t4, product_code_value());
        assert forall|other: Seq<char>| !is_driver_value(other) implies #[trigger] lookup(
            values@,
            other,
        ) == lookup(v0, other) by {
            lemma_lookup_after_set(v0, v1, layout_file_value(), t1, other);
            lemma_lookup_after_set(v1, v2, layout_text_value(), t2, other);
            lemma_lookup_after_set(v2, v3, layout_id_value(), t3, other);
            lemma_lookup_after_set(v3, values@, product_code_value(), t4, other);
        }
    }
}

/// Registers the layout driver key `id` (named `{id:08x}`) with its file,
/// display text, layout id and product code.
pub fn register_layout(
    store: &mut Store,
    id: u32,
    layout_id: u32,
    product_code: &str,
    layout_file: &str,
    layout_name: &str,
)
    ensures
        driver_post(
            *old(store),
            *final(store),
            id,
            layout_id,
            product_code@,
            layout_file@,
            layout_name@,
        ),
{
    let name = format_hex8_lower(id);
    match find_key(&store.keyboard_layouts, &name) {
        Some(i) => {
            let mut key = store.keyboard_layouts.remove(i);
            write_driver_values(&mut key.values, layout_id, product_code, layout_file, layout_name);
            store.keyboard_layouts.insert(i, key);
            proof {
                let k0 = old(store).keyboard_layouts@;
                let k1 = store.keyboard_layouts@;
                assert forall|j: int| 0 <= j < i implies (#[trigger] k1[j]).name@ != name@ by {
                    assert(k1[j] == k0[j]);
                }
                assert(crate::store::first_key(k1, name@, i as int));
                let c = key_index(k1, name@);
                if c < i {
                    assert(k1[c].name@ != name@);
                } else if i < c {
                    assert(k1[i as int].name@ != name@);
                }
            }
        },
        None => {
            let mut values: Vec<RegValue> = Vec::new();
            assert forall|other: Seq<char>| #[trigger] lookup(values@, other) is None by {
                assert(!has_value(values@, other));
            }
            write_driver_values(&mut values, layout_id, product_code, layout_file, layout_name);
            let ghost nm = name@;
            store.keyboard_layouts.push(RegKeyData { name, values });
            proof {
                let k0 = old(store).keyboard_layouts@;
                let k1 = store.keyboard_layouts@;
                let n = k0.len() as int;
                assert(k1.drop_last() =~= k0);
                assert forall|j: int| 0 <= j < n implies (#[trigger] k1[j]).name@ != nm by {
                    assert(k1[j] == k0[j]);
                }
                assert(crate::store::first_key(k1, nm, n));
                let c = key_index(k1, nm);
                if c < n {
                    assert(k1[c].name@ != nm);
                }
            }
        },
    }
}

/// The outcome of attaching, without the layout id.
pub open spec fn unit_of(r: Result<u32, InstallError>) -> Result<(), InstallError> {
    match r {
        Ok(_) => Ok(()),
        Err(e) => Err(e),
    }
}

/// What installation does after the profile step left `s1` and `rc`: it
/// resolves the locale id, allocates and registers the driver key, and
/// attaches the new layout to the profile.
pub open spec fn install_rest(
    s1: Store,
    s3: Store,
    product_code: Seq<char>,
    layout_file: Seq<char>,
    layout_name: Seq<char>,
    code: Seq<char>,
    native_lcid: Option<u32>,
    rc: Result<LanguageRegKey, InstallError>,
    r: Result<u32, InstallError>,
) -> bool {
    match rc {
        Err(e) => r == Err::<u32, InstallError>(e) && s3 == s1,
        Ok(_) => match resolved_lcid(s1, code, native_lcid) {
            None => r == Err::<u32, InstallError>(InstallError::UnresolvedLocale) && s3 == s1,
            Some(l) => match (
                driver_id_after(driver_prefixes(s1.keyboard_layouts@, l as u16), l as u16),
                after_max(layout_ids(s1.keyboard_layouts@)),
            ) {
                (Some(id), Some(lid)) => exists|s2: Store|
                    #[trigger] driver_post(s1, s2, id, lid, product_code, layout_file, layout_name)
                        && attach_post(s2, s3, code, id, native_lcid, unit_of(r)) && (r is Ok
                        ==> r == Ok::<u32, InstallError>(id)),
                _ => r == Err::<u32, InstallError>(InstallError::IdsExhausted) && s3 == s1,
            },
        },
    }
}

/// What installing a keyboard does to the store `s0`, leaving `s3`.
pub open spec fn install_post(
    s0: Store,
    s3: Store,
    language_name: Seq<char>,
    product_code: Seq<char>,
    layout_file: Seq<char>,
    layout_name: Seq<char>,
    code: Seq<char>,
    locales: Seq<String>,
    native_lcid: Option<u32>,
    r: Result<u32, InstallError>,
) -> bool {
    exists|s1: Store, rc: Result<LanguageRegKey, InstallError>|
        #[trigger] create_post(s0, s1, code, language_name, locales, rc) && install_rest(
            s1,
            s3,
            product_code,
            layout_file,
            layout_name,
            code,
            native_lcid,
            rc,
            r,
        )
}

/// Installs a keyboard layout for a language: finds or creates the
/// language's profile, registers a new layout driver for the profile's
/// locale, and attaches it. Returns the new driver key's id.
/// `system_locales` are the tags the system knows natively; `native_lcid`
/// is the locale id it resolves for `language_code`, if any.
pub fn install_keyboard(
    store: &mut Store,
    language_name: &str,
    product_code: &str,
    layout_file: &str,
    layout_name: &str,
    language_code: &str,
    system_locales: &Vec<String>,
    native_lcid: Option<u32>,
) -> (r: Result<u32, InstallError>)
    ensures
        install_post(
            *old(store),
            *final(store),
            language_name@,
            product_code@,
            layout_file@,
            layout_name@,
            language_code@,
            system_locales@,
            native_lcid,
            r,
        ),
{
    let ghost s0 = *store;
    let created = LanguageRegKey::create(store, language_code, language_name, system_locales);
    let ghost s1 = *store;
    let ghost rc = created;
    let lang = match created {
        Ok(k) => k,
        Err(e) => {
            assert(create_post(s0, s1, language_code@, language_name@, system_locales@, rc));
            return Err(e);
        },
    };
    proof {
        let code = language_code@;
        if !has_key(s0.user_profile@, code) {
            let n = s1.user_profile@.len() - 1;
            assert(s1.user_profile@[n].name@ == code);
        }
        assert(has_key(s1.user_profile@, code));
    }
    let lcid = match lang.transient_lang_id(store) {
        Some(t) => t,
        None => match native_lcid {
            Some(l) => l,
            None => {
                assert(create_post(s0, s1, language_code@, language_name@, system_locales@, rc));
                return Err(InstallError::UnresolvedLocale);
            },
        },
    };
    let id = match first_available_keyboard_regkey_id(store, lcid as u16) {
        Some(v) => v,
        None => {
            assert(create_post(s0, s1, language_code@, language_name@, system_locales@, rc));
            return Err(InstallError::IdsExhausted);
        },
    };
    let layout_id = match first_available_layout_id(store) {
        Some(v) => v,
        None => {
            assert(create_post(s0, s1, language_code@, language_name@, system_locales@, rc));
            return Err(InstallError::IdsExhausted);
        },
    };
    register_layout(store, id, layout_id, product_code, layout_file, layout_name);
    let ghost s2 = *store;
    assert(has_key(s2.user_profile@, language_code@));
    let attached = lang.add_keyboard(store, id, native_lcid);
    let r = match attached {
        Ok(()) => Ok(id),
        Err(e) => Err(e),
    };
    assert(driver_post(s1, s2, id, layout_id, product_code@, layout_file@, layout_name@));
    assert(attach_post(s2, *store, language_code@, id, native_lcid, unit_of(r)));
    assert(create_post(s0, s1, language_code@, language_name@, system_locales@, rc));
    r
}

} // verus!
