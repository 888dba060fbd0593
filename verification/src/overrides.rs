//! The override store: a mapping from a bundle's absolute path to the
//! category the user chose for it, kept as a list of entries with distinct
//! keys.  The store is persisted as a JSON object mapping each path to an
//! object holding an optional `category` field; reading and writing the file
//! itself is the caller's business, this module turns file contents into a
//! store and a store back into file contents.

use vstd::prelude::*;

verus! {

/// The mapping a sequence of key/value entries denotes; a later entry for
/// the same key wins.
pub open spec fn entries_map(s: Seq<(Seq<char>, Option<Seq<char>>)>) -> Map<
    Seq<char>,
    Option<Seq<char>>,
>
    decreases s.len(),
{
    if s.len() == 0 {
        Map::empty()
    } else {
        entries_map(s.drop_last()).insert(s.last().0, s.last().1)
    }
}

/// No two entries share a key.
pub open spec fn unique_keys(s: Seq<(Seq<char>, Option<Seq<char>>)>) -> bool {
    forall|i: int, j: int| 0 <= i < j < s.len() ==> (#[trigger] s[i]).0 != (#[trigger] s[j]).0
}

/// A key is in the map exactly when some entry holds it.
pub proof fn lemma_entries_map_dom(s: Seq<(Seq<char>, Option<Seq<char>>)>, k: Seq<char>)
    ensures
        entries_map(s).contains_key(k) <==> exists|i: int| 0 <= i < s.len() && (#[trigger] s[i]).0
            == k,
    decreases s.len(),
{
    if s.len() > 0 {
        let d = s.drop_last();
        lemma_entries_map_dom(d, k);
        assert(forall|i: int| 0 <= i < d.len() ==> #[trigger] d[i] == s[i]);
        if s.last().0 == k {
            assert(s[s.len() - 1].0 == k);
        } else {
            if entries_map(s).contains_key(k) {
                let i = choose|i: int| 0 <= i < d.len() && (#[trigger] d[i]).0 == k;
                assert(s[i].0 == k);
            }
            if exists|i: int| 0 <= i < s.len() && (#[trigger] s[i]).0 == k {
                let i = choose|i: int| 0 <= i < s.len() && (#[trigger] s[i]).0 == k;
                assert(i != s.len() - 1);
                assert(d[i].0 == k);
            }
        }
    }
}

/// With distinct keys, the entry holding a key gives its value in the map.
pub proof fn lemma_entries_map_val(s: Seq<(Seq<char>, Option<Seq<char>>)>, i: int)
    requires
        unique_keys(s),
        0 <= i < s.len(),
    ensures
        entries_map(s).contains_key(s[i].0),
        entries_map(s)[s[i].0] == s[i].1,
    decreases s.len(),
{
    if i == s.len() - 1 {
        assert(s.last() == s[i]);
    } else {
        assert(forall|a: int, b: int|
            0 <= a < b < s.drop_last().len() ==> (#[trigger] s.drop_last()[a]).0 != (
            #[trigger] s.drop_last()[b]).0);
        lemma_entries_map_val(s.drop_last(), i);
        assert(s.drop_last()[i] == s[i]);
        assert(s.last().0 == s[s.len() - 1].0);
        assert(s[i].0 != s[s.len() - 1].0);
    }
}

/// What `serde_json::from_str` yields for the text of an override file:
/// the entries of the JSON object, each reduced to its `field` member, or
/// nothing when the text is not JSON of that shape.
pub uninterp spec fn overrides_of_json(s: Seq<char>, field: Seq<char>) -> Option<
    Seq<(Seq<char>, Option<Seq<char>>)>,
>;

/// What `serde_json::to_string_pretty` yields for an override mapping
/// serialized as a JSON object of objects, each inner object holding the
/// mapping's value under the `field` member.
pub uninterp spec fn json_of_overrides(
    m: Map<Seq<char>, Option<Seq<char>>>,
    field: Seq<char>,
) -> Option<Seq<char>>;

/// Relies on `serde_json::from_str` deserializing into
/// `BTreeMap<String, BTreeMap<String, Option<String>>>`: the result is a
/// pure function of the text, and a `BTreeMap` holds each key once.
#[verifier::external_body]
fn parse_overrides_json(s: &str, field: &str) -> (r: Option<Vec<(String, Option<String>)>>)
    ensures
        r.deep_view() == overrides_of_json(s@, field@),
        match r {
            Some(v) => unique_keys(v.deep_view()),
            None => true,
        },
{
    let m: std::collections::BTreeMap<String, std::collections::BTreeMap<String, Option<String>>> =
        match serde_json::from_str(s) {
            Ok(m) => m,
            Err(_) => return None,
        };
    Some(m.into_iter().map(|(k, inner)| {
        let v = inner.get(field).cloned().unwrap_or(None);
        (k, v)
    }).collect())
}

/// Relies on `serde_json::to_string_pretty` of a
/// `BTreeMap<String, BTreeMap<String, Option<String>>>`: a `BTreeMap` orders
/// its keys, so with distinct keys the text depends only on the mapping the
/// entries denote and on the field name.
#[verifier::external_body]
fn overrides_to_json(entries: &Vec<(String, Option<String>)>, field: &str) -> (r: Option<String>)
    requires
        unique_keys(entries.deep_view()),
    ensures
        r.deep_view() == json_of_overrides(entries_map(entries.deep_view()), field@),
{
    let m: std::collections::BTreeMap<String, std::collections::BTreeMap<String, Option<String>>> =
        entries.iter().map(|(k, v)| {
            (k.clone(), std::collections::BTreeMap::from([(field.to_string(), v.clone())]))
        }).collect();
    serde_json::to_string_pretty(&m).ok()
}

/// The category overrides the user has saved, keyed by bundle path.
pub struct Overrides {
    entries: Vec<(String, Option<String>)>,
}

/// The mapping an override file's content denotes: an absent or malformed
/// file denotes the empty mapping.
pub open spec fn spec_parse_overrides(data: Option<Seq<char>>) -> Map<
    Seq<char>,
    Option<Seq<char>>,
> {
    match data {
        None => Map::empty(),
        Some(s) => match overrides_of_json(s, "category"@) {
            None => Map::empty(),
            Some(es) => entries_map(es),
        },
    }
}

impl View for Overrides {
    type V = Map<Seq<char>, Option<Seq<char>>>;

    closed spec fn view(&self) -> Map<Seq<char>, Option<Seq<char>>> {
        entries_map(self.entries.deep_view())
    }
}

impl Overrides {
    /// The store's entries hold each path at most once.
    pub closed spec fn wf(&self) -> bool {
        unique_keys(self.entries.deep_view())
    }

    /// An empty store.
    pub fn new() -> (r: Overrides)
        ensures
            r.wf(),
            r@ == Map::<Seq<char>, Option<Seq<char>>>::empty(),
    {
        Overrides { entries: Vec::new() }
    }

    /// Builds the store an override file's content denotes; a missing or
    /// malformed file gives the empty store.
    pub fn parse(data: &Option<String>) -> (r: Overrides)
        ensures
            r.wf(),
            r@ == spec_parse_overrides(data.deep_view()),
    {
        match data {
            None => Overrides::new(),
            Some(s) => match parse_overrides_json(s.as_str(), "category") {
                None => Overrides::new(),
                Some(v) => Overrides { entries: v },
            },
        }
    }

    /// The index of the entry holding `path`, if one does.
    fn find_key(&self, path: &String) -> (r: Option<usize>)
        ensures
            match r {
                Some(i) => i < self.entries@.len() && self.entries.deep_view()[i as int].0
                    == path@,
                None => forall|i: int|
                    0 <= i < self.entries@.len() ==> (#[trigger] self.entries.deep_view()[i]).0
                        != path@,
            },
    {
        let n = self.entries.len();
        let mut i: usize = 0;
        while i < n
            invariant
                n == self.entries@.len(),
                i <= n,
                forall|j: int|
                    0 <= j < i ==> (#[trigger] self.entries.deep_view()[j]).0 != path@,
            decreases n - i,
        {
            if self.entries[i].0 == *path {
                return Some(i);
            }
            i += 1;
        }
        None
    }

    /// The saved entry for `path`: nothing when the store has none, else the
    /// stored optional category.
    pub fn lookup(&self, path: &String) -> (r: Option<Option<String>>)
        requires
            self.wf(),
        ensures
            match r {
                Some(v) => self@.contains_key(path@) && v.deep_view() == self@[path@],
                None => !self@.contains_key(path@),
            },
    {
        match self.find_key(path) {
            Some(i) => {
                proof {
                    lemma_entries_map_val(self.entries.deep_view(), i as int);
                }
                Some(self.entries[i].1.clone())
            },
            None => {
                proof {
                    lemma_entries_map_dom(self.entries.deep_view(), path@);
                }
                None
            },
        }
    }

    /// Sets the stored entry for `path` to `value`.
    fn set_entry(&mut self, path: String, value: Option<String>)
        requires
            old(self).wf(),
        ensures
            final(self).wf(),
            final(self)@ == old(self)@.insert(path@, value.deep_view()),
    {
        let ghost s0 = self.entries.deep_view();
        match self.find_key(&path) {
            Some(i) => {
                self.entries.remove(i);
                proof {
                    let s1 = self.entries.deep_view();
                    s0.remove_ensures(i as int);
                    assert(s1 =~= s0.remove(i as int));
                    assert forall|a: int, b: int| 0 <= a < b < s1.len() implies (
                    #[trigger] s1[a]).0 != (#[trigger] s1[b]).0 by {
                        let a0: int = if a < i { a } else { a + 1 };
                        let b0: int = if b < i { b } else { b + 1 };
                        assert(s1[a] == s0[a0] && s1[b] == s0[b0]);
                    }
                    assert forall|j: int| 0 <= j < s1.len() implies (#[trigger] s1[j]).0 != path@
                        by {
                        let j0: int = if j < i { j } else { j + 1 };
                        assert(s1[j] == s0[j0]);
                    }
                    assert(entries_map(s1).insert(path@, value.deep_view()) =~= entries_map(
                        s0,
                    ).insert(path@, value.deep_view())) by {
                        lemma_map_agree_off_key(s0, s1, i as int, path@);
                    }
                }
            },
            None => {},
        }
        let ghost s2 = self.entries.deep_view();
        self.entries.push((path, value));
        proof {
            let s3 = self.entries.deep_view();
            assert(s3 =~= s2.push((path@, value.deep_view())));
            assert(s3.drop_last() =~= s2);
            assert(entries_map(s3) == entries_map(s2).insert(path@, value.deep_view()));
            assert forall|a: int, b: int| 0 <= a < b < s3.len() implies (#[trigger] s3[a]).0 != (
            #[trigger] s3[b]).0 by {
                if b == s3.len() - 1 {
                    assert(s3[a] == s2[a]);
                }
            }
        }
    }

    /// Saves the category the user chose for `path`, replacing any earlier
    /// choice.
    pub fn set_override(&mut self, path: String, category: String)
        requires
            old(self).wf(),
        ensures
            final(self).wf(),
            final(self)@ == old(self)@.insert(path@, Some(category@)),
    {
        self.set_entry(path, Some(category));
    }

    /// Serializes the store as the override file's JSON text.
    pub fn to_json(&self) -> (r: Option<String>)
        requires
            self.wf(),
        ensures
            r.deep_view() == json_of_overrides(self@, "category"@),
    {
        overrides_to_json(&self.entries, "category")
    }
}

/// Computes the new content of the override file after saving `category`
/// for `path`: the current content (absent or malformed counting as empty)
/// is parsed, the entry is inserted over any earlier one, and the whole
/// mapping is serialized back; nothing when serialization fails.
pub fn updated_config_json(data: &Option<String>, path: String, category: String) -> (r: Option<
    String,
>)
    ensures
        r.deep_view() == json_of_overrides(
            spec_parse_overrides(data.deep_view()).insert(path@, Some(category@)),
            "category"@,
        ),
{
    let mut overrides = Overrides::parse(data);
    overrides.set_override(path, category);
    overrides.to_json()
}

/// Removing the one entry holding `key` changes nothing once `key` is
/// written over: both maps agree after an insert at `key`.
proof fn lemma_map_agree_off_key(
    s0: Seq<(Seq<char>, Option<Seq<char>>)>,
    s1: Seq<(Seq<char>, Option<Seq<char>>)>,
    i: int,
    key: Seq<char>,
)
    requires
        unique_keys(s0),
        0 <= i < s0.len(),
        s0[i].0 == key,
        s1 == s0.remove(i),
    ensures
        forall|k: Seq<char>|
            k != key ==> (entries_map(s0).contains_key(k) <==> entries_map(s1).contains_key(k)),
        forall|k: Seq<char>|
            k != key && entries_map(s0).contains_key(k) ==> entries_map(s0)[k] == entries_map(
                s1,
            )[k],
{
    s0.remove_ensures(i);
    assert forall|a: int, b: int| 0 <= a < b < s1.len() implies (#[trigger] s1[a]).0 != (
    #[trigger] s1[b]).0 by {
        let a0: int = if a < i { a } else { a + 1 };
        let b0: int = if b < i { b } else { b + 1 };
        assert(s1[a] == s0[a0] && s1[b] == s0[b0]);
    }
    assert forall|k: Seq<char>| k != key implies (entries_map(s0).contains_key(k)
        <==> entries_map(s1).contains_key(k)) by {
        lemma_entries_map_dom(s0, k);
        lemma_entries_map_dom(s1, k);
        if entries_map(s0).contains_key(k) {
            let j = choose|j: int| 0 <= j < s0.len() && (#[trigger] s0[j]).0 == k;
            let j1: int = if j < i { j } else { j - 1 };
            assert(s1[j1] == s0[j]);
        } else if entries_map(s1).contains_key(k) {
            let j = choose|j: int| 0 <= j < s1.len() && (#[trigger] s1[j]).0 == k;
            let j0: int = if j < i { j } else { j + 1 };
            assert(s1[j] == s0[j0]);
        }
    }
    assert forall|k: Seq<char>| k != key && entries_map(s0).contains_key(k) implies entries_map(
        s0,
    )[k] == entries_map(s1)[k] by {
        lemma_entries_map_dom(s0, k);
        let j = choose|j: int| 0 <= j < s0.len() && (#[trigger] s0[j]).0 == k;
        lemma_entries_map_val(s0, j);
        let j1: int = if j < i { j } else { j - 1 };
        assert(s1[j1] == s0[j]);
        lemma_entries_map_val(s1, j1);
    }
}

} // verus!
