//! The user's list of active languages and the report on one language.
use vstd::prelude::*;

verus! {

/// The display names of a language, as the system's language database
/// reports them.
pub struct LanguageData {
    pub tag: String,
    pub name: String,
    pub english_name: String,
    pub localised_name: String,
    pub script_name: String,
}

/// The views of a list of tags.
pub open spec fn tags_view(langs: Seq<String>) -> Seq<Seq<char>> {
    langs.map_values(|s: String| s@)
}

/// Adds `tag` to the active languages unless it is there already; returns
/// whether it was added. The list keeps its order and the new tag goes last.
pub fn add_language(langs: &mut Vec<String>, tag: &str) -> (added: bool)
    ensures
        added == !tags_view(old(langs)@).contains(tag@),
        added ==> tags_view(final(langs)@) == tags_view(old(langs)@).push(tag@),
        !added ==> final(langs)@ == old(langs)@,
{
    let t = String::from_str(tag);
    let mut i: usize = 0;
    while i < langs.len()
        invariant
            i <= langs@.len(),
            t@ == tag@,
            forall|j: int| 0 <= j < i ==> (#[trigger] langs@[j])@ != tag@,
        decreases langs@.len() - i,
    {
        if langs[i] == t {
            assert(tags_view(langs@)[i as int] == tag@);
            return false;
        }
        i = i + 1;
    }
    assert(!tags_view(langs@).contains(tag@)) by {
        if tags_view(langs@).contains(tag@) {
            let j = choose|j: int| 0 <= j < langs@.len() && tags_view(langs@)[j] == tag@;
            assert(langs@[j]@ == tag@);
        }
    }
    langs.push(t);
    assert(tags_view(langs@) =~= tags_view(old(langs)@).push(tag@));
    true
}

/// Every tag of the list was enabled: the list of outcomes holds no failure.
pub fn all_enabled(outcomes: &Vec<bool>) -> (r: bool)
    ensures
        r == forall|i: int| 0 <= i < outcomes@.len() ==> outcomes@[i],
{
    let mut i: usize = 0;
    while i < outcomes.len()
        invariant
            i <= outcomes@.len(),
            forall|j: int| 0 <= j < i ==> outcomes@[j],
        decreases outcomes@.len() - i,
    {
        if !outcomes[i] {
            return false;
        }
        i = i + 1;
    }
    true
}

/// The report on a language: its tag and names, or a note that the tag is
/// not supported.
pub open spec fn language_report(id: Seq<char>, data: Option<LanguageData>) -> Seq<char> {
    match data {
        None => id + ": Unsupported tag."@,
        Some(d) => "Tag: "@ + id + "\nName: "@ + d.name@ + "\nEnglish Name: "@ + d.english_name@
            + "\nNative Name: "@ + d.localised_name@ + "\nScript: "@ + d.script_name@,
    }
}

/// Writes the report on the language `id`, given what the language database
/// knows of it.
pub fn describe_language(id: &str, data: Option<&LanguageData>) -> (r: String)
    ensures
        r@ == language_report(
            id@,
            match data {
                Some(d) => Some(*d),
                None => None,
            },
        ),
{
    match data {
        None => {
            let mut out = String::from_str(id);
            out.append(": Unsupported tag.");
            out
        },
        Some(d) => {
            let mut out = String::from_str("Tag: ");
            out.append(id);
            out.append("\nName: ");
            out.append(d.name.as_str());
            out.append("\nEnglish Name: ");
            out.append(d.english_name.as_str());
            out.append("\nNative Name: ");
            out.append(d.localised_name.as_str());
            out.append("\nScript: ");
            out.append(d.script_name.as_str());
            out
        },
    }
}

/// The pieces of `s` between occurrences of `sep`, as `str::split` gives
/// them: one more piece than there are separators, empty ones included.
pub open spec fn split_spec(s: Seq<char>, sep: char) -> Seq<Seq<char>>
    decreases s.len(),
{
    if s.len() == 0 {
        seq![Seq::empty()]
    } else {
        let init = split_spec(s.drop_last(), sep);
        if s.last() == sep {
            init.push(Seq::empty())
        } else {
            init.update(init.len() - 1, init.last().push(s.last()))
        }
    }
}

proof fn lemma_split_nonempty(s: Seq<char>, sep: char)
    ensures
        split_spec(s, sep).len() >= 1,
    decreases s.len(),
{
    if s.len() > 0 {
        lemma_split_nonempty(s.drop_last(), sep);
    }
}

/// Splits a `;`-separated list of language tags.
pub fn split_language_list(s: &str) -> (r: Vec<String>)
    ensures
        tags_view(r@) == split_spec(s@, ';'),
{
    let len = s.unicode_len();
    let mut out: Vec<String> = Vec::new();
    let mut start: usize = 0;
    let mut i: usize = 0;
    proof {
        assert(s@.take(0) =~= Seq::<char>::empty());
        assert(s@.subrange(0, 0) =~= Seq::<char>::empty());
        assert(tags_view(out@).push(Seq::<char>::empty()) =~= seq![Seq::<char>::empty()]);
    }
    while i < len
        invariant
            start <= i <= len,
            len == s@.len(),
            tags_view(out@).push(s@.subrange(start as int, i as int)) == split_spec(
                s@.take(i as int),
                ';',
            ),
        decreases len - i,
    {
        let c = s.get_char(i);
        proof {
            assert(s@.take(i + 1).drop_last() =~= s@.take(i as int));
            assert(s@.take(i + 1).last() == c);
            lemma_split_nonempty(s@.take(i as int), ';');
        }
        if c == ';' {
            let piece = String::from_str(s.substring_char(start, i));
            let ghost before = tags_view(out@);
            out.push(piece);
            proof {
                assert(tags_view(out@) =~= before.push(s@.subrange(start as int, i as int)));
                assert(s@.subrange(i + 1, i + 1) =~= Seq::<char>::empty());
            }
            start = i + 1;
        } else {
            proof {
                let init = split_spec(s@.take(i as int), ';');
                assert(s@.subrange(start as int, i + 1) =~= s@.subrange(start as int, i as int).push(
                    c,
                ));
                assert(tags_view(out@).push(s@.subrange(start as int, i + 1)) =~= init.update(
                    init.len() - 1,
                    init.last().push(c),
                ));
            }
        }
        i = i + 1;
    }
    let last = String::from_str(s.substring_char(start, len));
    let ghost before = tags_view(out@);
    out.push(last);
    proof {
        assert(tags_view(out@) =~= before.push(s@.subrange(start as int, len as int)));
        assert(s@.take(len as int) =~= s@);
    }
    out
}

} // verus!
