//! Language profiles under the per-user profile root, and the protocol that
//! attaches a keyboard layout to one of them.
use vstd::prelude::*;
use crate::store::{
    RegData, RegDataView, RegKeyData, RegValue, Store, find_key, get_value, has_key, has_value,
    key_index, lemma_lookup_after_set, lookup, set_into, set_value,
};
use crate::ids::{
    after_max, next_layout_order, next_preload_id, next_substitute_id, next_transient_lang_id,
    orders, preload_numbers, sub_prefixes, substitute_after, transient_of, transient_scan,
    transient_value_name,
};
use crate::text::{
    decimal, format_decimal, format_hex4_upper, format_hex8_lower, format_hex8_upper, hex4_upper,
    hex8_lower, hex8_upper,
};

verus! {

/// Why an installation step failed.
#[derive(PartialEq, Eq, Structural, Debug, Clone, Copy)]
pub enum InstallError {
    /// The profile has no transient id and its tag resolved to no locale id.
    UnresolvedLocale,
    /// A numbering scheme has no free identifier left.
    IdsExhausted,
    /// The profile's key is not in the store.
    MissingProfile,
}

/// A handle on a language profile: the name of its key under the profile root.
pub struct LanguageRegKey {
    pub id: String,
}

pub open spec fn cached_name_value() -> Seq<char> {
    "CachedLanguageName"@
}

/// The tag is one of the locales the system knows natively.
pub open spec fn is_system_locale(locales: Seq<String>, tag: Seq<char>) -> bool {
    exists|i: int| 0 <= i < locales.len() && (#[trigger] locales[i])@ == tag
}

/// The stores agree on every location but the profile root.
pub open spec fn same_but_profiles(a: Store, b: Store) -> bool {
    &&& a.substitutes_user == b.substitutes_user
    &&& a.substitutes_all == b.substitutes_all
    &&& a.preload_user == b.preload_user
    &&& a.preload_all == b.preload_all
    &&& a.keyboard_layouts == b.keyboard_layouts
}

/// What finding or creating the profile `code` does to the store `s0`,
/// leaving `s1` and returning `r`.
pub open spec fn create_post(
    s0: Store,
    s1: Store,
    code: Seq<char>,
    native_name: Seq<char>,
    locales: Seq<String>,
    r: Result<LanguageRegKey, InstallError>,
) -> bool {
    &&& r matches Ok(k) ==> k.id@ == code
    &&& if has_key(s0.user_profile@, code) {
        r is Ok && s1 == s0
    } else if is_system_locale(locales, code) {
        &&& r is Ok
        &&& same_but_profiles(s0, s1)
        &&& s1.user_profile@.drop_last() == s0.user_profile@
        &&& s1.user_profile@.len() == s0.user_profile@.len() + 1
        &&& s1.user_profile@.last().name@ == code
        &&& s1.user_profile@.last().values@.len() == 0
    } else if transient_scan(s0.user_profile@) <= u32::MAX {
        let k = s1.user_profile@.last();
        &&& r is Ok
        &&& same_but_profiles(s0, s1)
        &&& s1.user_profile@.drop_last() == s0.user_profile@
        &&& s1.user_profile@.len() == s0.user_profile@.len() + 1
        &&& k.name@ == code
        &&& k.values@.len() == 2
        &&& lookup(k.values@, cached_name_value()) == Some(RegDataView::Text(native_name))
        &&& lookup(k.values@, transient_value_name()) == Some(
            RegDataView::Dword(transient_scan(s0.user_profile@) as u32),
        )
    } else {
        r == Err::<LanguageRegKey, InstallError>(InstallError::IdsExhausted) && s1 == s0
    }
}

/// Creating a profile a second time with the same tag finds the first one
/// and writes nothing.
pub proof fn lemma_create_idempotent(
    s0: Store,
    s1: Store,
    s2: Store,
    code: Seq<char>,
    native_name: Seq<char>,
    locales: Seq<String>,
    r1: Result<LanguageRegKey, InstallError>,
    r2: Result<LanguageRegKey, InstallError>,
)
    requires
        create_post(s0, s1, code, native_name, locales, r1),
        create_post(s1, s2, code, native_name, locales, r2),
        r1 is Ok,
    ensures
        s2 == s1,
        r2 is Ok,
        r2->Ok_0.id@ == r1->Ok_0.id@,
{
    if !has_key(s0.user_profile@, code) {
        let n = s1.user_profile@.len() - 1;
        assert(s1.user_profile@[n].name@ == code);
    }
}

/// Whether `tag` is among `locales`.
fn contains_tag(locales: &Vec<String>, tag: &String) -> (r: bool)
    ensures
        r == is_system_locale(locales@, tag@),
{
    let mut i: usize = 0;
    while i < locales.len()
        invariant
            i <= locales@.len(),
            forall|j: int| 0 <= j < i ==> (#[trigger] locales@[j])@ != tag@,
        decreases locales@.len() - i,
    {
        if locales[i] == *tag {
            return true;
        }
        i = i + 1;
    }
    false
}

/// The locale id a profile's keyboards are registered under: its transient
/// id when it has one, else the one the system resolves for its tag.
pub open spec fn resolved_lcid(store: Store, id: Seq<char>, native_lcid: Option<u32>) -> Option<
    u32,
> {
    match transient_of(store.user_profile@[key_index(store.user_profile@, id)]) {
        Some(t) => Some(t),
        None => native_lcid,
    }
}

/// The name of a keyboard entry in a profile: `{lcid:04X}:{layout:08X}`.
pub open spec fn keyboard_value_name(lcid: u16, layout_id: u32) -> Seq<char> {
    hex4_upper(lcid as u32) + seq![':'] + hex8_upper(layout_id)
}

/// The five identifiers an attachment needs, all read from the store as it
/// was before the attachment: locale id, order, substitute id, and the
/// current-user and all-users preload positions.
pub open spec fn attach_ids(store: Store, id: Seq<char>, native_lcid: Option<u32>) -> Option<
    (u16, u32, u32, u32, u32),
> {
    match resolved_lcid(store, id, native_lcid) {
        None => None,
        Some(l) => {
            let lcid = l as u16;
            let idx = key_index(store.user_profile@, id);
            match (
                after_max(orders(store.user_profile@[idx].values@)),
                substitute_after(sub_prefixes(store.substitutes_user@, lcid), lcid),
                after_max(preload_numbers(store.preload_user@)),
                after_max(preload_numbers(store.preload_all@)),
            ) {
                (Some(o), Some(sub), Some(pu), Some(pa)) => Some((lcid, o, sub, pu, pa)),
                _ => None,
            }
        },
    }
}

/// What attaching `layout_id` to the profile `id` does: the keyboard entry
/// with its order in the profile, the substitute in both locations, and a
/// preload entry in each location.
pub open spec fn attach_post(
    s0: Store,
    s1: Store,
    id: Seq<char>,
    layout_id: u32,
    native_lcid: Option<u32>,
    r: Result<(), InstallError>,
) -> bool {
    match attach_ids(s0, id, native_lcid) {
        None => {
            &&& s1 == s0
            &&& r == Err::<(), InstallError>(
                if resolved_lcid(s0, id, native_lcid) is None {
                    InstallError::UnresolvedLocale
                } else {
                    InstallError::IdsExhausted
                },
            )
        },
        Some((lcid, order, sub, pu, pa)) => {
            let idx = key_index(s0.user_profile@, id);
            &&& r is Ok
            &&& s1.user_profile@.len() == s0.user_profile@.len()
            &&& forall|j: int|
                0 <= j < s0.user_profile@.len() && j != idx ==> s1.user_profile@[j]
                    == s0.user_profile@[j]
            &&& s1.user_profile@[idx].name == s0.user_profile@[idx].name
            &&& set_into(
                s0.user_profile@[idx].values@,
                s1.user_profile@[idx].values@,
                keyboard_value_name(lcid, layout_id),
                RegDataView::Dword(order),
            )
            &&& set_into(
                s0.substitutes_user@,
                s1.substitutes_user@,
                hex8_lower(sub),
                RegDataView::Text(hex8_lower(layout_id)),
            )
            &&& set_into(
                s0.substitutes_all@,
                s1.substitutes_all@,
                hex8_lower(sub),
                RegDataView::Text(hex8_lower(layout_id)),
            )
            &&& set_into(
                s0.preload_user@,
                s1.preload_user@,
                decimal(pu),
                RegDataView::Text(hex8_lower(sub)),
            )
            &&& set_into(
                s0.preload_all@,
                s1.preload_all@,
                decimal(pa),
                RegDataView::Text(hex8_lower(sub)),
            )
            &&& s1.keyboard_layouts == s0.keyboard_layouts
        },
    }
}

impl LanguageRegKey {
    /// The profile named `alpha_3_code`, if the store has it.
    pub fn find_by_alpha_3_code(store: &Store, alpha_3_code: &str) -> (r: Option<LanguageRegKey>)
        ensures
            r is Some <==> has_key(store.user_profile@, alpha_3_code@),
            r matches Some(k) ==> k.id@ == alpha_3_code@,
    {
        let id = String::from_str(alpha_3_code);
        match find_key(&store.user_profile, &id) {
            Some(_) => Some(LanguageRegKey { id }),
            None => None,
        }
    }

    /// Finds the profile `alpha_3_code`, or creates it. A tag the system does
    /// not know natively gets its display name cached and a transient id.
    /// `system_locales` are the tags the system enumerates as its locales.
    pub fn create(
        store: &mut Store,
        alpha_3_code: &str,
        native_name: &str,
        system_locales: &Vec<String>,
    ) -> (r: Result<LanguageRegKey, InstallError>)
        ensures
            create_post(
                *old(store),
                *final(store),
                alpha_3_code@,
                native_name@,
                system_locales@,
                r,
            ),
    {
        if let Some(k) = LanguageRegKey::find_by_alpha_3_code(store, alpha_3_code) {
            return Ok(k);
        }
        let id = String::from_str(alpha_3_code);
        if contains_tag(system_locales, &id) {
            let key = RegKeyData { name: String::from_str(alpha_3_code), values: Vec::new() };
            store.user_profile.push(key);
            assert(store.user_profile@.drop_last() =~= old(store).user_profile@);
            return Ok(LanguageRegKey { id });
        }
        let transient = match next_transient_lang_id(store) {
            Some(t) => t,
            None => {
                return Err(InstallError::IdsExhausted);
            },
        };
        let mut values: Vec<RegValue> = Vec::new();
        let ghost v0 = values@;
        set_value(
            &mut values,
            String::from_str("CachedLanguageName"),
            RegData::Text(String::from_str(native_name)),
        );
        let ghost v1 = values@;
        set_value(&mut values, String::from_str("TransientLangId"), RegData::Dword(transient));
        proof {
            assert(!has_value(v0, cached_name_value()));
            lemma_lookup_after_set(
                v0,
                v1,
                cached_name_value(),
                RegDataView::Text(native_name@),
                transient_value_name(),
            );
            assert(cached_name_value() != transient_value_name()) by {
                reveal_strlit("CachedLanguageName");
                reveal_strlit("TransientLangId");
                assert(cached_name_value().len() != transient_value_name().len());
            }
            lemma_lookup_after_set(
                v1,
                values@,
                transient_value_name(),
                RegDataView::Dword(transient),
                cached_name_value(),
            );
            assert(!has_value(v1, transient_value_name())) by {
                if has_value(v1, transient_value_name()) {
                    let j = choose|j: int|
                        0 <= j < v1.len() && (#[trigger] v1[j]).name@ == transient_value_name();
                    assert(v1[j].name@ == cached_name_value());
                }
            }
        }
        store.user_profile.push(RegKeyData { name: String::from_str(alpha_3_code), values });
        assert(store.user_profile@.drop_last() =~= old(store).user_profile@);
        Ok(LanguageRegKey { id })
    }

    /// The transient id recorded in this profile, if any.
    pub fn transient_lang_id(&self, store: &Store) -> (r: Option<u32>)
        ensures
            has_key(store.user_profile@, self.id@) ==> r == transient_of(
                store.user_profile@[key_index(store.user_profile@, self.id@)],
            ),
            !has_key(store.user_profile@, self.id@) ==> r is None,
    {
        let name = String::from_str("TransientLangId");
        match find_key(&store.user_profile, &self.id) {
            Some(i) => match get_value(&store.user_profile[i].values, &name) {
                Some(RegData::Dword(v)) => Some(*v),
                _ => None,
            },
            None => None,
        }
    }

    /// Attaches the keyboard layout `layout_id` to this profile: records it
    /// with the next order in the profile, adds a substitute for it in both
    /// the current-user and all-users locations, and appends that substitute
    /// to both preload tables. `native_lcid` is the locale id the system
    /// resolves for the profile's tag, used when the profile has no
    /// transient id. Every identifier is computed before the first write, so
    /// a failure leaves the store as it was.
    pub fn add_keyboard(&self, store: &mut Store, layout_id: u32, native_lcid: Option<u32>) -> (r:
        Result<(), InstallError>)
        ensures
            !has_key(old(store).user_profile@, self.id@) ==> r == Err::<(), InstallError>(
                InstallError::MissingProfile,
            ) && *final(store) == *old(store),
            has_key(old(store).user_profile@, self.id@) ==> attach_post(
                *old(store),
                *final(store),
                self.id@,
                layout_id,
                native_lcid,
                r,
            ),
    {
        let idx = match find_key(&store.user_profile, &self.id) {
            Some(i) => i,
            None => {
                return Err(InstallError::MissingProfile);
            },
        };
        let lcid32 = match self.transient_lang_id(store) {
            Some(t) => t,
            None => match native_lcid {
                Some(l) => l,
                None => {
                    return Err(InstallError::UnresolvedLocale);
                },
            },
        };
        let lcid = lcid32 as u16;
        let order = match next_layout_order(&store.user_profile[idx].values) {
            Some(o) => o,
            None => {
                return Err(InstallError::IdsExhausted);
            },
        };
        let sub = match next_substitute_id(store, lcid) {
            Some(v) => v,
            None => {
                return Err(InstallError::IdsExhausted);
            },
        };
        let preload_user = match next_preload_id(store, false) {
            Some(v) => v,
            None => {
                return Err(InstallError::IdsExhausted);
            },
        };
        let preload_all = match next_preload_id(store, true) {
            Some(v) => v,
            None => {
                return Err(InstallError::IdsExhausted);
            },
        };
        let kbd_name = format_keyboard_value_name(lcid, layout_id);
        let mut key = store.user_profile.remove(idx);
        set_value(&mut key.values, kbd_name, RegData::Dword(order));
        store.user_profile.insert(idx, key);

        let sub_name = format_hex8_lower(sub);
        let layout_name = format_hex8_lower(layout_id);
        set_value(&mut store.substitutes_user, sub_name.clone(), RegData::Text(layout_name.clone()));
        set_value(&mut store.substitutes_all, sub_name.clone(), RegData::Text(layout_name));

        set_value(
            &mut store.preload_user,
            format_decimal(preload_user),
            RegData::Text(sub_name.clone()),
        );
        set_value(&mut store.preload_all, format_decimal(preload_all), RegData::Text(sub_name));
        proof {
            let i = idx as int;
            assert forall|j: int|
                0 <= j < old(store).user_profile@.len() && j != i implies store.user_profile@[j]
                == old(store).user_profile@[j] by {}
        }
        Ok(())
    }
}

/// Spells a keyboard entry's name: `{lcid:04X}:{layout:08X}`.
pub fn format_keyboard_value_name(lcid: u16, layout_id: u32) -> (r: String)
    ensures
        r@ == keyboard_value_name(lcid, layout_id),
{
    let mut name = format_hex4_upper(lcid as u32);
    proof {
        reveal_strlit(":");
    }
    name.append(":");
    let tail = format_hex8_upper(layout_id);
    name.append(tail.as_str());
    name
}

} // verus!
