use vstd::prelude::*;
use vstd::string::*;
use crate::record::texts;
use crate::merge::copy_range;

verus! {

#[verifier::external_type_specification]
#[verifier::external_body]
pub struct ExYamlError(serde_yaml::Error);

/// The mapping from names to string lists that a YAML text holds: `None`
/// where the text is no such mapping.
pub uninterp spec fn yaml_lists(text: Seq<char>) -> Option<Map<Seq<char>, Seq<Seq<char>>>>;

/// The mapping that a list of named lists describes.
pub open spec fn lists_map(s: Seq<(String, Vec<String>)>) -> Map<Seq<char>, Seq<Seq<char>>>
    decreases s.len(),
{
    if s.len() == 0 {
        Map::empty()
    } else {
        lists_map(s.drop_last()).insert(s.last().0@, texts(s.last().1@))
    }
}

pub open spec fn names_distinct(s: Seq<(String, Vec<String>)>) -> bool {
    forall|i: int, j: int| 0 <= i < j < s.len() ==> s[i].0@ != s[j].0@
}

/// Relies on serde_yaml::from_str into a HashMap<String, Vec<String>>: the
/// mapping depends on the text alone, and a map holds each key once. The
/// entries come out in the map's own order.
#[verifier::external_body]
fn parse_yaml_lists(text: &str) -> (r: Result<Vec<(String, Vec<String>)>, serde_yaml::Error>)
    ensures
        r is Ok <==> yaml_lists(text@) is Some,
        r is Ok ==> names_distinct(r->Ok_0@) && yaml_lists(text@) == Some(lists_map(r->Ok_0@)),
{
    match serde_yaml::from_str::<std::collections::HashMap<String, Vec<String>>>(text) {
        Ok(m) => Ok(m.into_iter().collect()),
        Err(e) => Err(e),
    }
}

/// The ASN list of a configuration mapping: its `asn` entry, or nothing.
pub open spec fn asn_list_of(lists: Map<Seq<char>, Seq<Seq<char>>>) -> Seq<Seq<char>> {
    if lists.contains_key("asn"@) {
        lists["asn"@]
    } else {
        Seq::empty()
    }
}

proof fn lemma_lists_map_absent(s: Seq<(String, Vec<String>)>, k: Seq<char>)
    requires
        forall|i: int| 0 <= i < s.len() ==> s[i].0@ != k,
    ensures
        !lists_map(s).contains_key(k),
    decreases s.len(),
{
    if s.len() > 0 {
        lemma_lists_map_absent(s.drop_last(), k);
    }
}

proof fn lemma_lists_map_at(s: Seq<(String, Vec<String>)>, i: int)
    requires
        names_distinct(s),
        0 <= i < s.len(),
    ensures
        lists_map(s).contains_key(s[i].0@),
        lists_map(s)[s[i].0@] == texts(s[i].1@),
    decreases s.len(),
{
    if i < s.len() - 1 {
        lemma_lists_map_at(s.drop_last(), i);
    }
}

/// Reads the ASN list out of a YAML configuration text: the strings under
/// its `asn` key, or none where there is no such key; `None` where the text
/// is not a mapping from names to string lists.
pub fn asn_list_from_yaml(text: &str) -> (r: Option<Vec<String>>)
    ensures
        match yaml_lists(text@) {
            None => r is None,
            Some(lists) => r is Some && texts(r->Some_0@) == asn_list_of(lists),
        },
{
    let entries = match parse_yaml_lists(text) {
        Ok(e) => e,
        Err(_) => return None,
    };
    let key = String::from_str("asn");
    let mut i: usize = 0;
    while i < entries.len()
        invariant
            i <= entries@.len(),
            key@ == "asn"@,
            names_distinct(entries@),
            yaml_lists(text@) == Some(lists_map(entries@)),
            forall|j: int| 0 <= j < i ==> entries@[j].0@ != key@,
        decreases entries.len() - i,
    {
        if entries[i].0 == key {
            proof {
                lemma_lists_map_at(entries@, i as int);
                assert(texts(entries@[i as int].1@).subrange(0, entries@[i as int].1@.len() as int) =~= texts(entries@[i as int].1@));
            }
            return Some(copy_range(&entries[i].1, 0, entries[i].1.len()));
        }
        i = i + 1;
    }
    proof {
        lemma_lists_map_absent(entries@, key@);
    }
    let r: Vec<String> = Vec::new();
    assert(texts(r@) =~= Seq::<Seq<char>>::empty());
    Some(r)
}

} // verus!
