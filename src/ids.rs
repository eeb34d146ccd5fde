//! The identifier allocators. Each scans one location of the store and
//! computes the next free identifier of its numbering scheme; none writes.
//! Entries that do not parse are skipped, never reported: foreign or
//! damaged entries must not block a new allocation.
use vstd::prelude::*;
use crate::store::{
    RegData, RegDataView, RegKeyData, RegValue, Store, get_value, kbd_layout_preload_regkey,
    kbd_layout_sub_regkey, lookup,
};
use crate::text::{parse_u32, parse_u32_spec};

verus! {

/// The largest number among the present entries, or 0 when there is none.
pub open spec fn max_of(s: Seq<Option<u32>>) -> nat
    decreases s.len(),
{
    if s.len() == 0 {
        0
    } else {
        let m = max_of(s.drop_last());
        match s.last() {
            Some(n) => if n as nat > m {
                n as nat
            } else {
                m
            },
            None => m,
        }
    }
}

/// Some entry is present.
pub open spec fn any_of(s: Seq<Option<u32>>) -> bool {
    exists|i: int| 0 <= i < s.len() && (#[trigger] s[i]) is Some
}

/// `max_of` is the maximum: no present entry exceeds it, and it is 0 or
/// one of the entries.
pub proof fn lemma_max_of(s: Seq<Option<u32>>)
    ensures
        forall|i: int| 0 <= i < s.len() && (#[trigger] s[i]) is Some ==> s[i]->0 <= max_of(s),
        max_of(s) == 0 || exists|i: int| 0 <= i < s.len() && s[i] == Some(max_of(s) as u32),
        max_of(s) <= u32::MAX,
    decreases s.len(),
{
    if s.len() > 0 {
        lemma_max_of(s.drop_last());
        assert forall|i: int| 0 <= i < s.len() && (#[trigger] s[i]) is Some implies s[i]->0
            <= max_of(s) by {
            if i < s.len() - 1 {
                assert(s[i] == s.drop_last()[i]);
            }
        }
        if max_of(s) != 0 && max_of(s) == max_of(s.drop_last()) {
            let j = choose|j: int|
                0 <= j < s.drop_last().len() && s.drop_last()[j] == Some(
                    max_of(s.drop_last()) as u32,
                );
            assert(s[j] == Some(max_of(s) as u32));
        }
        if max_of(s) != max_of(s.drop_last()) {
            assert(s[s.len() - 1] == Some(max_of(s) as u32));
        }
    }
}

/// One more entry extends the running maximum and presence as the scans do.
pub(crate) proof fn lemma_step(s: Seq<Option<u32>>, i: int)
    requires
        0 <= i < s.len(),
    ensures
        max_of(s.take(i + 1)) == ({
            let m = max_of(s.take(i));
            match s[i] {
                Some(n) => if n as nat > m {
                    n as nat
                } else {
                    m
                },
                None => m,
            }
        }),
        any_of(s.take(i + 1)) == (any_of(s.take(i)) || s[i] is Some),
{
    assert(s.take(i + 1).drop_last() =~= s.take(i));
    assert(s.take(i + 1).last() == s[i]);
    if any_of(s.take(i + 1)) && s[i] is None {
        let j = choose|j: int| 0 <= j < s.take(i + 1).len() && (#[trigger] s.take(i + 1)[j]) is Some;
        assert(s.take(i)[j] is Some);
    }
    if s[i] is Some {
        assert(s.take(i + 1)[i] is Some);
    }
    if any_of(s.take(i)) {
        let j = choose|j: int| 0 <= j < s.take(i).len() && (#[trigger] s.take(i)[j]) is Some;
        assert(s.take(i + 1)[j] is Some);
    }
}

/// The next number after the maximum, if it still fits in 32 bits.
pub open spec fn after_max(s: Seq<Option<u32>>) -> Option<u32> {
    if max_of(s) < u32::MAX {
        Some((max_of(s) + 1) as u32)
    } else {
        None
    }
}

// ---- Transient language ids ----

pub open spec fn transient_value_name() -> Seq<char> {
    "TransientLangId"@
}

/// The transient id a profile key records, if it holds one as a number.
pub open spec fn transient_of(k: RegKeyData) -> Option<u32> {
    match lookup(k.values@, transient_value_name()) {
        Some(RegDataView::Dword(v)) => Some(v),
        _ => None,
    }
}

/// The scan over the profiles in store order: start at 0x2000, and on every
/// recorded id at or above the running value move to that id plus 0x400.
pub open spec fn transient_scan(keys: Seq<RegKeyData>) -> nat
    decreases keys.len(),
{
    if keys.len() == 0 {
        0x2000
    } else {
        let acc = transient_scan(keys.drop_last());
        match transient_of(keys.last()) {
            Some(v) => if v as nat >= acc {
                (v + 0x400) as nat
            } else {
                acc
            },
            None => acc,
        }
    }
}

/// A transient id from the scan is above 0x1FFF and above every id already
/// recorded, so it is none of them.
pub proof fn lemma_transient_fresh(keys: Seq<RegKeyData>)
    ensures
        transient_scan(keys) > 0x1FFF,
        forall|i: int|
            0 <= i < keys.len() && (#[trigger] transient_of(keys[i])) is Some ==> transient_of(
                keys[i],
            )->0 < transient_scan(keys),
    decreases keys.len(),
{
    if keys.len() > 0 {
        lemma_transient_fresh(keys.drop_last());
        assert forall|i: int|
            0 <= i < keys.len() && (#[trigger] transient_of(keys[i])) is Some implies transient_of(
            keys[i],
        )->0 < transient_scan(keys) by {
            if i < keys.len() - 1 {
                assert(keys[i] == keys.drop_last()[i]);
            }
        }
    }
}

/// The transient language id for a new profile, or `None` when the scan
/// runs past 32 bits.
pub fn next_transient_lang_id(store: &Store) -> (r: Option<u32>)
    ensures
        r == (if transient_scan(store.user_profile@) <= u32::MAX {
            Some(transient_scan(store.user_profile@) as u32)
        } else {
            None
        }),
{
    let name = String::from_str("TransientLangId");
    let keys = &store.user_profile;
    let mut acc: u64 = 0x2000;
    let mut i: usize = 0;
    while i < keys.len()
        invariant
            i <= keys@.len(),
            name@ == transient_value_name(),
            acc as nat == transient_scan(keys@.take(i as int)),
            acc <= u32::MAX + 0x400,
        decreases keys@.len() - i,
    {
        proof {
            assert(keys@.take(i + 1).drop_last() =~= keys@.take(i as int));
            assert(keys@.take(i + 1).last() == keys@[i as int]);
        }
        match get_value(&keys[i].values, &name) {
            Some(RegData::Dword(v)) => {
                if (*v as u64) >= acc {
                    acc = (*v as u64) + 0x400;
                }
            },
            _ => {},
        }
        i = i + 1;
    }
    assert(keys@.take(keys@.len() as int) =~= keys@);
    if acc <= 0xFFFF_FFFFu64 {
        Some(acc as u32)
    } else {
        None
    }
}

// ---- Keyboard orders within a profile ----

/// The order a profile value records, for keyboard entries (names with a
/// `:`) that hold a number.
pub open spec fn order_of(v: RegValue) -> Option<u32> {
    if v.name@.contains(':') {
        match v.data {
            RegData::Dword(n) => Some(n),
            _ => None,
        }
    } else {
        None
    }
}

pub open spec fn orders(vals: Seq<RegValue>) -> Seq<Option<u32>> {
    vals.map_values(|v: RegValue| order_of(v))
}

/// Whether `s` holds the character `c`.
pub fn contains_char(s: &str, c: char) -> (r: bool)
    ensures
        r == s@.contains(c),
{
    let len = s.unicode_len();
    let mut i: usize = 0;
    while i < len
        invariant
            i <= len,
            len == s@.len(),
            forall|j: int| 0 <= j < i ==> s@[j] != c,
        decreases len - i,
    {
        if s.get_char(i) == c {
            return true;
        }
        i = i + 1;
    }
    false
}

/// The order for a keyboard added to a profile with these values: one more
/// than the largest order recorded, 1 when there is none.
pub fn next_layout_order(values: &Vec<RegValue>) -> (r: Option<u32>)
    ensures
        r == after_max(orders(values@)),
{
    let ghost s = orders(values@);
    let mut m: u32 = 0;
    let mut i: usize = 0;
    while i < values.len()
        invariant
            i <= values@.len(),
            s == orders(values@),
            m as nat == max_of(s.take(i as int)),
        decreases values@.len() - i,
    {
        proof {
            lemma_step(s, i as int);
        }
        if contains_char(values[i].name.as_str(), ':') {
            match &values[i].data {
                RegData::Dword(n) => {
                    if *n > m {
                        m = *n;
                    }
                },
                _ => {},
            }
        }
        i = i + 1;
    }
    assert(s.take(values@.len() as int) =~= s);
    if m < 0xFFFF_FFFF {
        Some(m + 1)
    } else {
        None
    }
}

// ---- Substitute ids ----

/// The prefix (high 16 bits) of a substitute key whose low 16 bits are
/// `suffix`; keys that are not hexadecimal numbers do not count.
pub open spec fn sub_prefix(v: RegValue, suffix: u16) -> Option<u32> {
    match parse_u32_spec(v.name@, 16) {
        Some(k) => if k % 0x10000 == suffix as u32 {
            Some(k / 0x10000)
        } else {
            None
        },
        None => None,
    }
}

pub open spec fn sub_prefixes(vals: Seq<RegValue>, suffix: u16) -> Seq<Option<u32>> {
    vals.map_values(|v: RegValue| sub_prefix(v, suffix))
}

/// The substitute id after a chain of prefixes: 0 for a new chain, 0xd001
/// after prefix 0, and one past the largest prefix otherwise.
pub open spec fn substitute_after(s: Seq<Option<u32>>, suffix: u16) -> Option<u32> {
    if !any_of(s) {
        Some(suffix as u32)
    } else if max_of(s) == 0 {
        Some((0xd001 * 0x10000 + suffix) as u32)
    } else if max_of(s) < 0xFFFF {
        Some(((max_of(s) + 1) * 0x10000 + suffix) as u32)
    } else {
        None
    }
}

/// The next substitute id for layouts of locale `suffix`, given the
/// substitute entries of a location. `None` when the chain is full.
pub fn next_substitute_id_in(values: &Vec<RegValue>, suffix: u16) -> (r: Option<u32>)
    ensures
        r == substitute_after(sub_prefixes(values@, suffix), suffix),
{
    let ghost s = sub_prefixes(values@, suffix);
    let mut m: u32 = 0;
    let mut any = false;
    let mut i: usize = 0;
    while i < values.len()
        invariant
            i <= values@.len(),
            s == sub_prefixes(values@, suffix),
            m as nat == max_of(s.take(i as int)),
            any == any_of(s.take(i as int)),
        decreases values@.len() - i,
    {
        proof {
            lemma_step(s, i as int);
        }
        match parse_u32(values[i].name.as_str(), 16) {
            Some(k) => {
                if k % 0x10000 == suffix as u32 {
                    any = true;
                    if k / 0x10000 > m {
                        m = k / 0x10000;
                    }
                }
            },
            None => {},
        }
        i = i + 1;
    }
    assert(s.take(values@.len() as int) =~= s);
    proof {
        lemma_max_of(s);
        if m > 0 {
            let j = choose|j: int| 0 <= j < s.len() && s[j] == Some(max_of(s) as u32);
            assert(s[j] == sub_prefix(values@[j], suffix));
        }
    }
    if !any {
        Some(suffix as u32)
    } else if m == 0 {
        Some(0xd001 * 0x10000 + suffix as u32)
    } else if m < 0xFFFF {
        Some((m + 1) * 0x10000 + suffix as u32)
    } else {
        None
    }
}

/// The next substitute id for locale `suffix`, from the current user's
/// substitutes (both locations receive the same id).
pub fn next_substitute_id(store: &Store, suffix: u16) -> (r: Option<u32>)
    ensures
        r == substitute_after(sub_prefixes(store.substitutes_user@, suffix), suffix),
{
    next_substitute_id_in(kbd_layout_sub_regkey(store, false), suffix)
}

// ---- Preload positions ----

pub open spec fn preload_numbers(vals: Seq<RegValue>) -> Seq<Option<u32>> {
    vals.map_values(|v: RegValue| parse_u32_spec(v.name@, 10))
}

/// The next preload position among these preload entries: one more than
/// the largest decimal key, 1 when there is none.
pub fn next_preload_id_in(values: &Vec<RegValue>) -> (r: Option<u32>)
    ensures
        r == after_max(preload_numbers(values@)),
{
    let ghost s = preload_numbers(values@);
    let mut m: u32 = 0;
    let mut i: usize = 0;
    while i < values.len()
        invariant
            i <= values@.len(),
            s == preload_numbers(values@),
            m as nat == max_of(s.take(i as int)),
        decreases values@.len() - i,
    {
        proof {
            lemma_step(s, i as int);
        }
        match parse_u32(values[i].name.as_str(), 10) {
            Some(n) => {
                if n > m {
                    m = n;
                }
            },
            None => {},
        }
        i = i + 1;
    }
    assert(s.take(values@.len() as int) =~= s);
    if m < 0xFFFF_FFFF {
        Some(m + 1)
    } else {
        None
    }
}

/// The preload entries of one location.
pub open spec fn preload_of(store: Store, is_all_users: bool) -> Seq<RegValue> {
    if is_all_users {
        store.preload_all@
    } else {
        store.preload_user@
    }
}

/// The next preload position of one location; the two locations count
/// independently.
pub fn next_preload_id(store: &Store, is_all_users: bool) -> (r: Option<u32>)
    ensures
        r == after_max(preload_numbers(preload_of(*store, is_all_users))),
{
    next_preload_id_in(kbd_layout_preload_regkey(store, is_all_users))
}

// ---- Laws of the allocators ----

/// A new keyboard's order is one more than the largest order of the
/// profile, and 1 when the profile has no keyboard yet.
pub proof fn lemma_layout_order_after_all(vals: Seq<RegValue>)
    ensures
        forall|i: int|
            0 <= i < vals.len() && (#[trigger] order_of(vals[i])) is Some ==> order_of(vals[i])->0
                <= max_of(orders(vals)),
        max_of(orders(vals)) == 0 || exists|i: int|
            0 <= i < vals.len() && order_of(vals[i]) == Some(max_of(orders(vals)) as u32),
        (forall|i: int| 0 <= i < vals.len() ==> (#[trigger] order_of(vals[i])) is None) ==> after_max(
            orders(vals),
        ) == Some(1u32),
{
    let s = orders(vals);
    lemma_max_of(s);
    assert forall|i: int|
        0 <= i < vals.len() && (#[trigger] order_of(vals[i])) is Some implies order_of(vals[i])->0
        <= max_of(s) by {
        assert(s[i] == order_of(vals[i]));
    }
    if max_of(s) != 0 {
        let i = choose|i: int| 0 <= i < s.len() && s[i] == Some(max_of(s) as u32);
        assert(order_of(vals[i]) == Some(max_of(s) as u32));
    }
}

/// A new preload position is one more than the largest decimal key, and 1
/// when there is none; keys that are not decimal numbers play no part.
pub proof fn lemma_preload_after_all(vals: Seq<RegValue>)
    ensures
        forall|i: int|
            0 <= i < vals.len() && (#[trigger] parse_u32_spec(vals[i].name@, 10)) is Some
                ==> parse_u32_spec(vals[i].name@, 10)->0 <= max_of(preload_numbers(vals)),
        max_of(preload_numbers(vals)) == 0 || exists|i: int|
            0 <= i < vals.len() && parse_u32_spec(vals[i].name@, 10) == Some(
                max_of(preload_numbers(vals)) as u32,
            ),
        (forall|i: int| 0 <= i < vals.len() ==> (#[trigger] parse_u32_spec(vals[i].name@, 10)) is None)
            ==> after_max(preload_numbers(vals)) == Some(1u32),
{
    let s = preload_numbers(vals);
    lemma_max_of(s);
    assert forall|i: int|
        0 <= i < vals.len() && (#[trigger] parse_u32_spec(vals[i].name@, 10)) is Some implies parse_u32_spec(
        vals[i].name@,
        10,
    )->0 <= max_of(s) by {
        assert(s[i] == parse_u32_spec(vals[i].name@, 10));
    }
    if max_of(s) != 0 {
        let i = choose|i: int| 0 <= i < s.len() && s[i] == Some(max_of(s) as u32);
        assert(parse_u32_spec(vals[i].name@, 10) == Some(max_of(s) as u32));
    }
}

/// A substitute id keeps the requested locale in its low 16 bits and is
/// not yet a key of the substitutes it was computed from.
pub proof fn lemma_substitute_fresh(vals: Seq<RegValue>, suffix: u16)
    ensures
        substitute_after(sub_prefixes(vals, suffix), suffix) matches Some(id) ==> {
            &&& id % 0x10000 == suffix as u32
            &&& forall|i: int|
                0 <= i < vals.len() ==> #[trigger] parse_u32_spec(vals[i].name@, 16) != Some(id)
        },
{
    let s = sub_prefixes(vals, suffix);
    lemma_max_of(s);
    if let Some(id) = substitute_after(s, suffix) {
        assert forall|i: int| 0 <= i < vals.len() implies #[trigger] parse_u32_spec(
            vals[i].name@,
            16,
        ) != Some(id) by {
            assert(s[i] == sub_prefix(vals[i], suffix));
            if parse_u32_spec(vals[i].name@, 16) == Some(id) {
                assert(s[i] is Some);
            }
        }
    }
}

/// A chain for a locale starts at prefix 0, continues at 0xd001, and then
/// counts up.
pub proof fn lemma_substitute_chain(vals: Seq<RegValue>, suffix: u16)
    ensures
        vals.len() == 0 ==> substitute_after(sub_prefixes(vals, suffix), suffix) == Some(
            suffix as u32,
        ),
        vals.len() == 1 && parse_u32_spec(vals[0].name@, 16) == Some(suffix as u32)
            ==> substitute_after(sub_prefixes(vals, suffix), suffix) == Some(
            (0xd001 * 0x10000 + suffix) as u32,
        ),
        vals.len() == 1 && parse_u32_spec(vals[0].name@, 16) == Some(
            (0xd001 * 0x10000 + suffix) as u32,
        ) ==> substitute_after(sub_prefixes(vals, suffix), suffix) == Some(
            (0xd002 * 0x10000 + suffix) as u32,
        ),
{
    let s = sub_prefixes(vals, suffix);
    if vals.len() == 1 {
        assert(s.drop_last().len() == 0);
        assert(s[0] == sub_prefix(vals[0], suffix));
        assert(max_of(s.drop_last()) == 0);
        assert(s.last() == s[0]);
        let k1 = (0xd001 * 0x10000 + suffix) as u32;
        assert(k1 % 0x10000 == suffix as u32 && k1 / 0x10000 == 0xd001);
        assert((suffix as u32) % 0x10000 == suffix as u32 && (suffix as u32) / 0x10000 == 0);
        if s[0] is Some {
            assert(any_of(s));
        }
    }
}

} // verus!
