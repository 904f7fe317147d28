//! Messages exchanged with the hub and their property bags.

use vstd::prelude::*;

verus! {

/// The map that a list of name/value pairs denotes: a later pair overrides an
/// earlier one with the same name.
pub open spec fn pairs_map(pairs: Seq<(Seq<char>, Seq<char>)>) -> Map<Seq<char>, Seq<char>>
    decreases pairs.len(),
{
    if pairs.len() == 0 {
        Map::empty()
    } else {
        pairs_map(pairs.drop_last()).insert(pairs.last().0, pairs.last().1)
    }
}

/// The texts of a list of string pairs.
pub open spec fn pair_texts(pairs: Seq<(String, String)>) -> Seq<(Seq<char>, Seq<char>)> {
    pairs.map_values(|p: (String, String)| (p.0@, p.1@))
}

/// No name occurs twice.
pub open spec fn distinct_names(pairs: Seq<(Seq<char>, Seq<char>)>) -> bool {
    forall|i: int, j: int| 0 <= i < j < pairs.len() ==> pairs[i].0 != pairs[j].0
}

proof fn lemma_pairs_map_absent(pairs: Seq<(Seq<char>, Seq<char>)>, k: Seq<char>)
    requires
        forall|i: int| 0 <= i < pairs.len() ==> pairs[i].0 != k,
    ensures
        !pairs_map(pairs).dom().contains(k),
    decreases pairs.len(),
{
    if pairs.len() > 0 {
        lemma_pairs_map_absent(pairs.drop_last(), k);
    }
}

proof fn lemma_pairs_map_at(pairs: Seq<(Seq<char>, Seq<char>)>, i: int)
    requires
        distinct_names(pairs),
        0 <= i < pairs.len(),
    ensures
        pairs_map(pairs).dom().contains(pairs[i].0),
        pairs_map(pairs)[pairs[i].0] == pairs[i].1,
    decreases pairs.len(),
{
    if i < pairs.len() - 1 {
        lemma_pairs_map_at(pairs.drop_last(), i);
    }
}

proof fn lemma_pairs_map_update(pairs: Seq<(Seq<char>, Seq<char>)>, i: int, v: Seq<char>)
    requires
        distinct_names(pairs),
        0 <= i < pairs.len(),
    ensures
        pairs_map(pairs.update(i, (pairs[i].0, v))) =~= pairs_map(pairs).insert(pairs[i].0, v),
    decreases pairs.len(),
{
    let k = pairs[i].0;
    let upd = pairs.update(i, (k, v));
    if i < pairs.len() - 1 {
        assert(upd.drop_last() =~= pairs.drop_last().update(i, (k, v)));
        lemma_pairs_map_update(pairs.drop_last(), i, v);
        assert(pairs.last().0 != k);
    } else {
        assert(upd.drop_last() =~= pairs.drop_last());
    }
}

/// A map from property names to values, kept as a list of distinct names.
pub struct PropertyMap {
    entries: Vec<(String, String)>,
}

impl View for PropertyMap {
    type V = Map<Seq<char>, Seq<char>>;

    closed spec fn view(&self) -> Map<Seq<char>, Seq<char>> {
        pairs_map(pair_texts(self.entries@))
    }
}

impl PropertyMap {
    #[verifier::type_invariant]
    spec fn names_are_distinct(&self) -> bool {
        distinct_names(pair_texts(self.entries@))
    }

    /// An empty map.
    pub fn new() -> (m: PropertyMap)
        ensures
            m@ == Map::<Seq<char>, Seq<char>>::empty(),
    {
        let m = PropertyMap { entries: Vec::new() };
        assert(pair_texts(m.entries@) =~= Seq::empty());
        m
    }

    /// Sets `name` to `value`, replacing any earlier value of `name`.
    pub fn insert(&mut self, name: String, value: String)
        ensures
            final(self)@ == old(self)@.insert(name@, value@),
    {
        proof {
            use_type_invariant(&*self);
        }
        let mut entries: Vec<(String, String)> = Vec::new();
        std::mem::swap(&mut entries, &mut self.entries);
        let ghost before = entries@;
        assert(old(self)@ == pairs_map(pair_texts(before)));
        let n: usize = entries.len();
        let mut i: usize = 0;
        while i < n
            invariant
                n == entries@.len(),
                entries@ == before,
                old(self)@ == pairs_map(pair_texts(before)),
                distinct_names(pair_texts(before)),
                i <= n,
                forall|j: int| 0 <= j < i ==> pair_texts(before)[j].0 != name@,
            decreases n - i,
        {
            if entries[i].0 == name {
                let ghost texts = pair_texts(before);
                assert(texts[i as int].0 == name@);
                proof {
                    lemma_pairs_map_update(texts, i as int, value@);
                }
                let ghost name_text = name@;
                let ghost value_text = value@;
                entries.set(i, (name, value));
                assert(pair_texts(entries@) =~= texts.update(i as int, (name_text, value_text)));
                assert(distinct_names(pair_texts(entries@)));
                assert(pairs_map(pair_texts(entries@)) == pairs_map(texts).insert(name_text, value_text));
                self.entries = entries;
                assert(self@ == pairs_map(pair_texts(entries@)));
                return;
            }
            i += 1;
        }
        let ghost texts = pair_texts(before);
        let ghost name_text = name@;
        let ghost value_text = value@;
        entries.push((name, value));
        assert(pair_texts(entries@) =~= texts.push((name_text, value_text)));
        assert(pair_texts(entries@).drop_last() =~= texts);
        assert(distinct_names(pair_texts(entries@)));
        self.entries = entries;
    }

    /// The value of `name`, if it is set.
    pub fn get(&self, name: &str) -> (res: Option<String>)
        ensures
            match res {
                Some(v) => self@.dom().contains(name@) && v@ == self@[name@],
                None => !self@.dom().contains(name@),
            },
    {
        proof {
            use_type_invariant(self);
        }
        let key = name.to_owned();
        let n: usize = self.entries.len();
        let mut i: usize = 0;
        while i < n
            invariant
                n == self.entries@.len(),
                key@ == name@,
                distinct_names(pair_texts(self.entries@)),
                i <= n,
                forall|j: int| 0 <= j < i ==> pair_texts(self.entries@)[j].0 != name@,
            decreases n - i,
        {
            if self.entries[i].0 == key {
                proof {
                    lemma_pairs_map_at(pair_texts(self.entries@), i as int);
                }
                return Some(self.entries[i].1.clone());
            }
            i += 1;
        }
        proof {
            lemma_pairs_map_absent(pair_texts(self.entries@), name@);
        }
        None
    }

    /// The name/value pairs, each name once.
    pub fn to_pairs(&self) -> (res: Vec<(String, String)>)
        ensures
            pairs_map(pair_texts(res@)) == self@,
            distinct_names(pair_texts(res@)),
    {
        proof {
            use_type_invariant(self);
        }
        let mut res: Vec<(String, String)> = Vec::new();
        let n: usize = self.entries.len();
        let mut i: usize = 0;
        while i < n
            invariant
                n == self.entries@.len(),
                i <= n,
                res@.len() == i,
                pair_texts(res@) =~= pair_texts(self.entries@).take(i as int),
            decreases n - i,
        {
            let ghost prev = res@;
            let e = &self.entries[i];
            let k = e.0.clone();
            let v = e.1.clone();
            assert(k@ == self.entries@[i as int].0@ && v@ == self.entries@[i as int].1@);
            res.push((k, v));
            assert(res@ =~= prev.push(res@[i as int]));
            assert(pair_texts(res@)[i as int] == pair_texts(self.entries@)[i as int]);
            assert(pair_texts(res@) =~= pair_texts(self.entries@).take(i + 1));
            i += 1;
        }
        assert(pair_texts(self.entries@).take(n as int) =~= pair_texts(self.entries@));
        res
    }
}

/// Reading a name after setting it gives the value set, and leaves every
/// other name as it was.
pub proof fn law_get_after_insert(
    before: PropertyMap,
    after: PropertyMap,
    name: Seq<char>,
    value: Seq<char>,
    other: Seq<char>,
)
    requires
        after@ == before@.insert(name, value),
        other != name,
    ensures
        after@.dom().contains(name),
        after@[name] == value,
        after@.dom().contains(other) == before@.dom().contains(other),
        before@.dom().contains(other) ==> after@[other] == before@[other],
{
}

/// A message: its body and its application and system properties.
pub struct Message {
    pub body: Vec<u8>,
    pub properties: PropertyMap,
    pub system_properties: PropertyMap,
}

impl Message {
    /// A message with the given body and no properties.
    pub fn new(body: Vec<u8>) -> (m: Message)
        ensures
            m.body@ == body@,
            m.properties@ == Map::<Seq<char>, Seq<char>>::empty(),
            m.system_properties@ == Map::<Seq<char>, Seq<char>>::empty(),
    {
        Message { body, properties: PropertyMap::new(), system_properties: PropertyMap::new() }
    }
}

/// A direct method the hub asks the device to run.
pub struct DirectMethodInvocation {
    pub method_name: String,
    pub message: Message,
    pub request_id: String,
}

/// The device's answer to a direct method.
pub struct DirectMethodResponse {
    pub request_id: String,
    pub status: i32,
    pub body: Vec<u8>,
}

/// What the hub sends to the device.
pub enum MessageType {
    C2DMessage(Message),
    DesiredPropertyUpdate(Message),
    DirectMethod(DirectMethodInvocation),
}

} // verus!
