use langinstall::ids::{
    next_layout_order, next_preload_id, next_preload_id_in, next_substitute_id,
    next_substitute_id_in, next_transient_lang_id,
};
use langinstall::keyboard::{
    first_available_keyboard_regkey_id, first_available_layout_id, install_keyboard,
    keyboard_layouts_regkey, register_layout,
};
use langinstall::profile::{format_keyboard_value_name, InstallError, LanguageRegKey};
use langinstall::store::{get_value, set_value, RegData, RegKeyData, RegValue, Store};
use langinstall::text::{
    format_decimal, format_hex4_lower, format_hex4_upper, format_hex8_lower, format_hex8_upper,
    format_padded, parse_u32,
};

fn empty_store() -> Store {
    Store {
        user_profile: vec![],
        substitutes_user: vec![],
        substitutes_all: vec![],
        preload_user: vec![],
        preload_all: vec![],
        keyboard_layouts: vec![],
    }
}

fn text(name: &str, value: &str) -> RegValue {
    RegValue { name: name.to_string(), data: RegData::Text(value.to_string()) }
}

fn dword(name: &str, value: u32) -> RegValue {
    RegValue { name: name.to_string(), data: RegData::Dword(value) }
}

fn profile(name: &str, values: Vec<RegValue>) -> RegKeyData {
    RegKeyData { name: name.to_string(), values }
}

fn text_of(vals: &Vec<RegValue>, name: &str) -> Option<String> {
    match get_value(vals, &name.to_string()) {
        Some(RegData::Text(t)) => Some(t.clone()),
        _ => None,
    }
}

fn dword_of(vals: &Vec<RegValue>, name: &str) -> Option<u32> {
    match get_value(vals, &name.to_string()) {
        Some(RegData::Dword(v)) => Some(*v),
        _ => None,
    }
}

#[test]
fn test_sub_id() {
    let store = empty_store();
    let a = next_substitute_id(&store, 0xabcd).unwrap();
    println!("sub_id: {:08x}", a);
    let b = next_substitute_id(&store, 0x0c09).unwrap();
    println!("sub_id: {:08x}", b);
    assert_eq!(a, 0x0000abcd);
    assert_eq!(b, 0x00000c09);
}

#[test]
fn test_it_doth_work() {
    let store = empty_store();
    let v = next_transient_lang_id(&store).unwrap();
    println!("Transient id: {:04x}", v);
    assert_eq!(v, 0x2000);
}

#[test]
fn transient_id_skips_past_recorded_ids() {
    let mut store = empty_store();
    store.user_profile.push(profile("sme", vec![dword("TransientLangId", 0x2000)]));
    store.user_profile.push(profile("en-US", vec![]));
    store.user_profile.push(profile("vro", vec![dword("TransientLangId", 0x2400)]));
    store.user_profile.push(profile("odd", vec![text("TransientLangId", "9999")]));
    let v = next_transient_lang_id(&store).unwrap();
    assert_eq!(v, 0x2800);
    assert!(v > 0x1FFF);
}

#[test]
fn transient_id_keeps_value_below_running_id() {
    let mut store = empty_store();
    store.user_profile.push(profile("a", vec![dword("TransientLangId", 0x2000)]));
    store.user_profile.push(profile("b", vec![dword("TransientLangId", 0x2100)]));
    assert_eq!(next_transient_lang_id(&store), Some(0x2400));
}

#[test]
fn transient_id_space_exhausted() {
    let mut store = empty_store();
    store.user_profile.push(profile("a", vec![dword("TransientLangId", 0xFFFF_FF00)]));
    assert_eq!(next_transient_lang_id(&store), None);
}

#[test]
fn layout_order_is_one_past_largest() {
    let vals = vec![
        text("CachedLanguageName", "Võro"),
        dword("TransientLangId", 0x2000),
        dword("2000:A0002000", 3),
        dword("2000:A0012000", 1),
    ];
    assert_eq!(next_layout_order(&vals), Some(4));
    assert_eq!(next_layout_order(&vec![]), Some(1));
    assert_eq!(next_layout_order(&vec![dword("TransientLangId", 0x2000)]), Some(1));
    assert_eq!(next_layout_order(&vec![dword("0409:X", u32::MAX)]), None);
}

#[test]
fn substitute_chain_starts_at_zero_then_d001() {
    assert_eq!(next_substitute_id_in(&vec![], 0x0409), Some(0x0000_0409));
    let one = vec![text("00000409", "00000409")];
    assert_eq!(next_substitute_id_in(&one, 0x0409), Some(0xd001_0409));
    let two = vec![text("d0010409", "a0000409")];
    assert_eq!(next_substitute_id_in(&two, 0x0409), Some(0xd002_0409));
}

#[test]
fn substitute_existing_entry_does_not_collide() {
    let mut store = empty_store();
    store.substitutes_user.push(text("00000409", "X"));
    let id = next_substitute_id(&store, 0x0409).unwrap();
    assert_eq!(id, 0xd0010409);
    assert_ne!(id, 0x00000409);
}

#[test]
fn substitute_ignores_other_locales_and_bad_keys() {
    let vals = vec![
        text("d0050c09", "x"),
        text("zz", "x"),
        text("00000409", "x"),
        text("d0030409", "x"),
    ];
    assert_eq!(next_substitute_id_in(&vals, 0x0409), Some(0xd004_0409));
    assert_eq!(next_substitute_id_in(&vals, 0x0c09), Some(0xd006_0c09));
    assert_eq!(next_substitute_id_in(&vals, 0x1000), Some(0x0000_1000));
    assert_eq!(next_substitute_id_in(&vec![text("ffff0409", "x")], 0x0409), None);
}

#[test]
fn preload_ignores_malformed_key() {
    let vals = vec![text("1", "00000409"), text("abc", "x"), text("2", "00000c09")];
    assert_eq!(next_preload_id_in(&vals), Some(3));
}

#[test]
fn preload_locations_are_independent() {
    let mut store = empty_store();
    store.preload_user.push(text("1", "00000409"));
    store.preload_user.push(text("7", "00000409"));
    store.preload_all.push(text("1", "00000409"));
    assert_eq!(next_preload_id(&store, false), Some(8));
    assert_eq!(next_preload_id(&store, true), Some(2));
    assert_eq!(next_preload_id_in(&vec![]), Some(1));
    assert_eq!(next_preload_id_in(&vec![text("4294967295", "x")]), None);
}

#[test]
fn parse_follows_integer_parsing() {
    for (s, radix) in [
        ("0", 10u32),
        ("+17", 10),
        ("00000409", 16),
        ("D0010409", 16),
        ("ffffffff", 16),
        ("4294967295", 10),
        ("4294967296", 10),
        ("", 10),
        ("+", 10),
        ("-1", 10),
        ("abc", 10),
        ("1f", 10),
        ("123456789", 16),
        ("++1", 10),
    ] {
        assert_eq!(parse_u32(s, radix), u32::from_str_radix(s, radix).ok(), "{} {}", s, radix);
    }
}

#[test]
fn formatting_matches_std() {
    for n in [0u32, 9, 10, 0x409, 0xabcd, 0xd0010409, u32::MAX] {
        assert_eq!(format_hex8_lower(n), format!("{:08x}", n));
        assert_eq!(format_hex8_upper(n), format!("{:08X}", n));
        assert_eq!(format_hex4_upper(n), format!("{:04X}", n));
        assert_eq!(format_hex4_lower(n), format!("{:04x}", n));
        assert_eq!(format_decimal(n), format!("{}", n));
        assert_eq!(format_padded(n, 10, 6, false), format!("{:06}", n));
    }
    assert_eq!(format_keyboard_value_name(0x0409, 0xa0000409), "0409:A0000409");
}

#[test]
fn set_value_replaces_or_appends() {
    let mut vals = vec![dword("a", 1), dword("b", 2)];
    set_value(&mut vals, "b".to_string(), RegData::Dword(5));
    set_value(&mut vals, "c".to_string(), RegData::Text("x".to_string()));
    assert_eq!(vals.len(), 3);
    assert_eq!(dword_of(&vals, "b"), Some(5));
    assert_eq!(text_of(&vals, "c"), Some("x".to_string()));
    assert_eq!(vals[1].name, "b");
}

#[test]
fn create_profile_is_idempotent() {
    let mut store = empty_store();
    let locales: Vec<String> = vec!["en-US".to_string()];
    let first = LanguageRegKey::create(&mut store, "vro", "võro kiil", &locales).unwrap();
    assert_eq!(first.id, "vro");
    assert_eq!(store.user_profile.len(), 1);
    let vals = &store.user_profile[0].values;
    assert_eq!(text_of(vals, "CachedLanguageName"), Some("võro kiil".to_string()));
    assert_eq!(dword_of(vals, "TransientLangId"), Some(0x2000));
    let values_before = store.user_profile[0].values.len();
    let second = LanguageRegKey::create(&mut store, "vro", "other", &locales).unwrap();
    assert_eq!(second.id, first.id);
    assert_eq!(store.user_profile.len(), 1);
    assert_eq!(store.user_profile[0].values.len(), values_before);
    assert_eq!(text_of(&store.user_profile[0].values, "CachedLanguageName"), Some("võro kiil".to_string()));
}

#[test]
fn create_known_locale_gets_no_transient_id() {
    let mut store = empty_store();
    let locales: Vec<String> = vec!["en-US".to_string(), "fr-FR".to_string()];
    let k = LanguageRegKey::create(&mut store, "fr-FR", "français", &locales).unwrap();
    assert_eq!(k.transient_lang_id(&store), None);
    assert!(store.user_profile[0].values.is_empty());
    assert!(LanguageRegKey::find_by_alpha_3_code(&store, "fr-FR").is_some());
    assert!(LanguageRegKey::find_by_alpha_3_code(&store, "de-DE").is_none());
}

#[test]
fn create_with_transient_ids_exhausted() {
    let mut store = empty_store();
    store.user_profile.push(profile("x", vec![dword("TransientLangId", 0xFFFF_FC00)]));
    let r = LanguageRegKey::create(&mut store, "vro", "võro", &vec![]);
    assert!(matches!(r, Err(InstallError::IdsExhausted)));
    assert_eq!(store.user_profile.len(), 1);
}

#[test]
fn attach_on_empty_store_writes_all_locations() {
    let mut store = empty_store();
    let locales: Vec<String> = vec!["en-US".to_string()];
    let id = install_keyboard(
        &mut store,
        "English",
        "{00000000-0000-0000-0000-000000000000}",
        "kbdus.dll",
        "US",
        "en-US",
        &locales,
        Some(0x0409),
    )
    .unwrap();
    assert_eq!(id, 0xa0000409);
    assert_eq!(store.user_profile.len(), 1);
    assert_eq!(store.user_profile[0].name, "en-US");
    assert_eq!(dword_of(&store.user_profile[0].values, "0409:A0000409"), Some(1));
    for subs in [&store.substitutes_user, &store.substitutes_all] {
        assert_eq!(subs.len(), 1);
        assert_eq!(text_of(subs, "00000409"), Some("a0000409".to_string()));
    }
    for pre in [&store.preload_user, &store.preload_all] {
        assert_eq!(pre.len(), 1);
        assert_eq!(text_of(pre, "1"), Some("00000409".to_string()));
    }
    let drivers = keyboard_layouts_regkey(&store);
    assert_eq!(drivers.len(), 1);
    assert_eq!(drivers[0].name, "a0000409");
    assert_eq!(text_of(&drivers[0].values, "Layout File"), Some("kbdus.dll".to_string()));
    assert_eq!(text_of(&drivers[0].values, "Layout Text"), Some("US".to_string()));
    assert_eq!(text_of(&drivers[0].values, "Layout Id"), Some("0001".to_string()));
}

#[test]
fn second_keyboard_continues_every_sequence() {
    let mut store = empty_store();
    let locales: Vec<String> = vec![];
    install_keyboard(&mut store, "Võro", "{a}", "kbdvro.dll", "Võro", "vro", &locales, None).unwrap();
    let id = install_keyboard(&mut store, "Võro", "{b}", "kbdvro2.dll", "Võro 2", "vro", &locales, None)
        .unwrap();
    assert_eq!(id, 0xa0012000);
    assert_eq!(store.user_profile.len(), 1);
    let vals = &store.user_profile[0].values;
    assert_eq!(dword_of(vals, "2000:A0002000"), Some(1));
    assert_eq!(dword_of(vals, "2000:A0012000"), Some(2));
    assert_eq!(text_of(&store.substitutes_user, "00002000"), Some("a0002000".to_string()));
    assert_eq!(text_of(&store.substitutes_user, "d0012000"), Some("a0012000".to_string()));
    assert_eq!(text_of(&store.substitutes_all, "d0012000"), Some("a0012000".to_string()));
    assert_eq!(text_of(&store.preload_user, "2"), Some("d0012000".to_string()));
    assert_eq!(text_of(&store.preload_all, "2"), Some("d0012000".to_string()));
    assert_eq!(text_of(&store.keyboard_layouts[1].values, "Layout Id"), Some("0002".to_string()));
}

#[test]
fn unresolved_locale_is_an_error() {
    let mut store = empty_store();
    let locales: Vec<String> = vec!["en-US".to_string()];
    let r = install_keyboard(&mut store, "English", "{a}", "kbdus.dll", "US", "en-US", &locales, None);
    assert_eq!(r, Err(InstallError::UnresolvedLocale));
    assert!(store.keyboard_layouts.is_empty());
    assert!(store.substitutes_user.is_empty());
}

#[test]
fn missing_profile_is_an_error() {
    let mut store = empty_store();
    let k = LanguageRegKey { id: "nope".to_string() };
    assert_eq!(k.add_keyboard(&mut store, 0xa0000409, Some(0x0409)), Err(InstallError::MissingProfile));
}

#[test]
fn exhausted_preload_leaves_store_unchanged() {
    let mut store = empty_store();
    store.user_profile.push(profile("en-US", vec![]));
    store.preload_all.push(text("4294967295", "00000409"));
    let k = LanguageRegKey { id: "en-US".to_string() };
    assert_eq!(k.add_keyboard(&mut store, 0xa0000409, Some(0x0409)), Err(InstallError::IdsExhausted));
    assert!(store.user_profile[0].values.is_empty());
    assert!(store.substitutes_user.is_empty());
}

#[test]
fn driver_ids_follow_locale_prefixes() {
    let mut store = empty_store();
    assert_eq!(first_available_keyboard_regkey_id(&store, 0x0409), Some(0xa0000409));
    assert_eq!(first_available_layout_id(&store), Some(1));
    store.keyboard_layouts.push(profile("00000409", vec![text("Layout Id", "0000")]));
    store.keyboard_layouts.push(profile("a0030409", vec![text("Layout Id", "00c1")]));
    store.keyboard_layouts.push(profile("a0070c09", vec![text("Layout Id", "zz")]));
    store.keyboard_layouts.push(profile("a0010409", vec![]));
    assert_eq!(first_available_keyboard_regkey_id(&store, 0x0409), Some(0xa0040409));
    assert_eq!(first_available_keyboard_regkey_id(&store, 0x0c09), Some(0xa0080c09));
    assert_eq!(first_available_layout_id(&store), Some(0xc2));
    store.keyboard_layouts.push(profile("affff0409", vec![]));
    assert_eq!(first_available_keyboard_regkey_id(&store, 0x0409), Some(0xa0040409));
}

#[test]
fn register_layout_overwrites_existing_driver() {
    let mut store = empty_store();
    store.keyboard_layouts.push(profile("a0000409", vec![text("Layout Text", "old"), text("Extra", "kept")]));
    register_layout(&mut store, 0xa0000409, 0x1f, "{p}", "f.dll", "new");
    assert_eq!(store.keyboard_layouts.len(), 1);
    let vals = &store.keyboard_layouts[0].values;
    assert_eq!(text_of(vals, "Layout Text"), Some("new".to_string()));
    assert_eq!(text_of(vals, "Extra"), Some("kept".to_string()));
    assert_eq!(text_of(vals, "Layout Id"), Some("001f".to_string()));
    assert_eq!(text_of(vals, "Layout Product Code"), Some("{p}".to_string()));
}
