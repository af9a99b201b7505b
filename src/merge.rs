use vstd::prelude::*;
use vstd::string::*;
use crate::record::{AsnData, AsnModel, IpVersion, texts};

verus! {

/// The largest number of ranges that one output record holds in combined mode.
pub const CHUNK_SIZE: usize = 2000;

/// A map from output key to record, held as entries with distinct keys.
pub struct ResultMap {
    entries: Vec<(String, AsnData)>,
}

/// The map that a list of entries describes, a later entry winning over an
/// earlier one with the same key.
pub open spec fn entries_map(s: Seq<(String, AsnData)>) -> Map<Seq<char>, AsnModel>
    decreases s.len(),
{
    if s.len() == 0 {
        Map::empty()
    } else {
        entries_map(s.drop_last()).insert(s.last().0@, s.last().1@)
    }
}

pub open spec fn keys_distinct(s: Seq<(String, AsnData)>) -> bool {
    forall|i: int, j: int| 0 <= i < j < s.len() ==> s[i].0@ != s[j].0@
}

impl View for ResultMap {
    type V = Map<Seq<char>, AsnModel>;

    closed spec fn view(&self) -> Map<Seq<char>, AsnModel> {
        entries_map(self.entries@)
    }
}

proof fn lemma_entries_map_absent(s: Seq<(String, AsnData)>, k: Seq<char>)
    requires
        forall|i: int| 0 <= i < s.len() ==> s[i].0@ != k,
    ensures
        !entries_map(s).contains_key(k),
    decreases s.len(),
{
    if s.len() > 0 {
        lemma_entries_map_absent(s.drop_last(), k);
    }
}

proof fn lemma_entries_map_at(s: Seq<(String, AsnData)>, i: int)
    requires
        keys_distinct(s),
        0 <= i < s.len(),
    ensures
        entries_map(s).contains_key(s[i].0@),
        entries_map(s)[s[i].0@] == s[i].1@,
    decreases s.len(),
{
    if i < s.len() - 1 {
        lemma_entries_map_at(s.drop_last(), i);
    }
}

proof fn lemma_entries_map_update(s: Seq<(String, AsnData)>, i: int, e: (String, AsnData))
    requires
        keys_distinct(s),
        0 <= i < s.len(),
        s[i].0@ == e.0@,
    ensures
        entries_map(s.update(i, e)) == entries_map(s).insert(e.0@, e.1@),
    decreases s.len(),
{
    let t = s.update(i, e);
    if i == s.len() - 1 {
        assert(t.drop_last() =~= s.drop_last());
        assert(entries_map(t) =~= entries_map(s).insert(e.0@, e.1@));
    } else {
        assert(t.drop_last() =~= s.drop_last().update(i, e));
        lemma_entries_map_update(s.drop_last(), i, e);
        assert(entries_map(t) =~= entries_map(s).insert(e.0@, e.1@));
    }
}

impl ResultMap {
    /// Every key stands in one entry only.
    pub closed spec fn wf(&self) -> bool {
        keys_distinct(self.entries@)
    }

    /// An empty map.
    pub fn new() -> (r: ResultMap)
        ensures
            r.wf(),
            r@ == Map::<Seq<char>, AsnModel>::empty(),
    {
        ResultMap { entries: Vec::new() }
    }

    /// The number of keys.
    pub fn len(&self) -> (n: usize)
        requires
            self.wf(),
        ensures
            n == self@.len(),
    {
        proof {
            self.lemma_dom();
        }
        self.entries.len()
    }

    proof fn lemma_dom(&self)
        requires
            self.wf(),
        ensures
            self@.dom() == self.entries@.map_values(|e: (String, AsnData)| e.0@).to_set(),
            self@.len() == self.entries@.len(),
    {
        let s = self.entries@;
        let ks = s.map_values(|e: (String, AsnData)| e.0@);
        assert forall|k: Seq<char>| self@.contains_key(k) <==> ks.contains(k) by {
            if ks.contains(k) {
                let i = choose|i: int| 0 <= i < ks.len() && ks[i] == k;
                lemma_entries_map_at(s, i);
            } else {
                assert forall|i: int| 0 <= i < s.len() implies s[i].0@ != k by {
                    assert(ks[i] == s[i].0@);
                }
                lemma_entries_map_absent(s, k);
            }
        }
        assert(self@.dom() =~= ks.to_set());
        assert(ks.no_duplicates());
        ks.unique_seq_to_set();
    }

    /// The position of the entry with key `key`, if any.
    fn find(&self, key: &String) -> (r: Option<usize>)
        ensures
            match r {
                Some(i) => i < self.entries@.len() && self.entries@[i as int].0@ == key@,
                None => forall|i: int| 0 <= i < self.entries@.len() ==> self.entries@[i].0@ != key@,
            },
    {
        let mut i: usize = 0;
        while i < self.entries.len()
            invariant
                i <= self.entries@.len(),
                forall|j: int| 0 <= j < i ==> self.entries@[j].0@ != key@,
            decreases self.entries.len() - i,
        {
            if self.entries[i].0 == *key {
                return Some(i);
            }
            i = i + 1;
        }
        None
    }

    /// The record under `key`, if any.
    pub fn get(&self, key: &String) -> (r: Option<&AsnData>)
        requires
            self.wf(),
        ensures
            match r {
                Some(d) => self@.contains_key(key@) && self@[key@] == d@,
                None => !self@.contains_key(key@),
            },
    {
        match self.find(key) {
            Some(i) => {
                proof {
                    lemma_entries_map_at(self.entries@, i as int);
                }
                Some(&self.entries[i].1)
            },
            None => {
                proof {
                    lemma_entries_map_absent(self.entries@, key@);
                }
                None
            },
        }
    }

    /// Puts `rec` under `key`, in place of what was there.
    pub fn insert(&mut self, key: String, rec: AsnData)
        requires
            old(self).wf(),
        ensures
            final(self).wf(),
            final(self)@ == old(self)@.insert(key@, rec@),
    {
        match self.find(&key) {
            Some(i) => {
                let ghost e = (key, rec);
                proof {
                    lemma_entries_map_update(self.entries@, i as int, e);
                }
                self.entries.set(i, (key, rec));
                assert(self.entries@ =~= old(self).entries@.update(i as int, e));
            },
            None => {
                let ghost s = self.entries@;
                self.entries.push((key, rec));
                assert(self.entries@.drop_last() =~= s);
            },
        }
    }

    /// The entries, one per key, in no particular order.
    pub fn entries(&self) -> (r: &Vec<(String, AsnData)>)
        requires
            self.wf(),
        ensures
            keys_distinct(r@),
            entries_map(r@) == self@,
    {
        &self.entries
    }
}

/// The decimal digit for `d`.
pub open spec fn digit_char(d: nat) -> char {
    if d == 0 { '0' } else if d == 1 { '1' } else if d == 2 { '2' } else if d == 3 { '3' }
    else if d == 4 { '4' } else if d == 5 { '5' } else if d == 6 { '6' } else if d == 7 { '7' }
    else if d == 8 { '8' } else { '9' }
}

/// The decimal text of `n`, without leading zeros.
pub open spec fn decimal(n: nat) -> Seq<char>
    decreases n,
{
    if n < 10 {
        seq![digit_char(n)]
    } else {
        decimal(n / 10).push(digit_char(n % 10))
    }
}

/// The number of chunks of at most `CHUNK_SIZE` ranges that `n` ranges make.
pub open spec fn chunk_count(n: nat) -> nat {
    n / 2000 + if n % 2000 == 0 { 0nat } else { 1nat }
}

/// The key of the chunk at `index`: the ASN itself for the first, and the ASN
/// with `_2`, `_3`, ... for the ones after it.
pub open spec fn chunk_key(asn: Seq<char>, index: nat) -> Seq<char> {
    if index == 0 {
        asn
    } else {
        asn + seq!['_'] + decimal(index + 1)
    }
}

/// The ranges of the chunk at `index`: up to `CHUNK_SIZE` consecutive ones.
pub open spec fn chunk_ranges(ranges: Seq<Seq<char>>, index: nat) -> Seq<Seq<char>> {
    let start: int = 2000 * index as int;
    let end: int = if start + 2000 <= ranges.len() { start + 2000 } else { ranges.len() as int };
    ranges.subrange(start, end)
}

/// The record of the chunk at `index`, with the whole record's display name.
pub open spec fn chunk(rec: AsnModel, index: nat) -> AsnModel {
    AsnModel { display_name: rec.display_name, ip_ranges: chunk_ranges(rec.ip_ranges, index) }
}

/// `m` with the first `n` chunks of `rec` put under their keys, in order.
pub open spec fn insert_chunks(m: Map<Seq<char>, AsnModel>, asn: Seq<char>, rec: AsnModel, n: nat) -> Map<Seq<char>, AsnModel>
    decreases n,
{
    if n == 0 {
        m
    } else {
        insert_chunks(m, asn, rec, (n - 1) as nat).insert(chunk_key(asn, (n - 1) as nat), chunk(rec, (n - 1) as nat))
    }
}

/// What merging one ASN's record does to the map: nothing for an empty record;
/// in chunked mode, a record over `CHUNK_SIZE` ranges goes in as its chunks;
/// any other record goes in whole under the ASN.
pub open spec fn merge_step(m: Map<Seq<char>, AsnModel>, asn: Seq<char>, rec: AsnModel, chunked: bool) -> Map<Seq<char>, AsnModel> {
    if rec.ip_ranges.len() == 0 {
        m
    } else if chunked && rec.ip_ranges.len() > 2000 {
        insert_chunks(m, asn, rec, chunk_count(rec.ip_ranges.len()))
    } else {
        m.insert(asn, rec)
    }
}

/// `m` with each of `results` merged in, in order.
pub open spec fn merged_into(m: Map<Seq<char>, AsnModel>, results: Seq<(Seq<char>, AsnModel)>, chunked: bool) -> Map<Seq<char>, AsnModel>
    decreases results.len(),
{
    if results.len() == 0 {
        m
    } else {
        merge_step(merged_into(m, results.drop_last(), chunked), results.last().0, results.last().1, chunked)
    }
}

/// The map that merging `results` makes from nothing.
pub open spec fn merged(results: Seq<(Seq<char>, AsnModel)>, chunked: bool) -> Map<Seq<char>, AsnModel> {
    merged_into(Map::empty(), results, chunked)
}

pub open spec fn results_view(results: Seq<(String, AsnData)>) -> Seq<(Seq<char>, AsnModel)> {
    results.map_values(|e: (String, AsnData)| (e.0@, e.1@))
}

/// The single-digit text for `d`.
fn digit_str(d: usize) -> (r: &'static str)
    requires
        d < 10,
    ensures
        r@ == seq![digit_char(d as nat)],
{
    proof {
        reveal_strlit("0");
        reveal_strlit("1");
        reveal_strlit("2");
        reveal_strlit("3");
        reveal_strlit("4");
        reveal_strlit("5");
        reveal_strlit("6");
        reveal_strlit("7");
        reveal_strlit("8");
        reveal_strlit("9");
    }
    if d == 0 { "0" } else if d == 1 { "1" } else if d == 2 { "2" } else if d == 3 { "3" }
    else if d == 4 { "4" } else if d == 5 { "5" } else if d == 6 { "6" } else if d == 7 { "7" }
    else if d == 8 { "8" } else { "9" }
}

/// The decimal text of `n`.
pub fn decimal_string(n: usize) -> (r: String)
    ensures
        r@ == decimal(n as nat),
    decreases n,
{
    if n < 10 {
        String::from_str(digit_str(n))
    } else {
        let mut s = decimal_string(n / 10);
        s.append(digit_str(n % 10));
        s
    }
}

/// The output key of the chunk at `index` of an ASN's ranges.
pub fn chunk_key_string(asn: &String, index: usize) -> (r: String)
    requires
        index < usize::MAX,
    ensures
        r@ == chunk_key(asn@, index as nat),
{
    if index == 0 {
        asn.clone()
    } else {
        let mut key = asn.clone();
        proof {
            reveal_strlit("_");
        }
        key.append("_");
        key.append(decimal_string(index + 1).as_str());
        key
    }
}

/// A copy of `v[start..end]`.
pub(crate) fn copy_range(v: &Vec<String>, start: usize, end: usize) -> (r: Vec<String>)
    requires
        start <= end <= v@.len(),
    ensures
        texts(r@) == texts(v@).subrange(start as int, end as int),
{
    let mut out: Vec<String> = Vec::new();
    let mut i: usize = start;
    while i < end
        invariant
            start <= i <= end <= v@.len(),
            texts(out@) == texts(v@).subrange(start as int, i as int),
        decreases end - i,
    {
        let ghost prev = out@;
        out.push(v[i].clone());
        assert(texts(out@) =~= texts(prev).push(v@[i as int]@));
        assert(texts(out@) =~= texts(v@).subrange(start as int, i + 1));
        i = i + 1;
    }
    out
}

impl ResultMap {
    /// Merges one ASN's record into the map: an empty record is dropped; in
    /// chunked mode a record over `CHUNK_SIZE` ranges is split into chunks
    /// under the keys `asn`, `asn_2`, `asn_3`, ...; any other record is put
    /// under `asn` whole.
    pub fn merge_record(&mut self, asn: String, rec: AsnData, chunked: bool)
        requires
            old(self).wf(),
        ensures
            final(self).wf(),
            final(self)@ == merge_step(old(self)@, asn@, rec@, chunked),
    {
        let n = rec.ip_ranges.len();
        if n == 0 {
            return;
        }
        if !chunked || n <= CHUNK_SIZE {
            self.insert(asn, rec);
            return;
        }
        let count: usize = n / CHUNK_SIZE + if n % CHUNK_SIZE == 0 { 0 } else { 1 };
        let mut i: usize = 0;
        let mut start: usize = 0;
        while i < count
            invariant
                self.wf(),
                n == rec@.ip_ranges.len(),
                n > 2000,
                count == chunk_count(n as nat),
                i <= count,
                i < count ==> start == 2000 * i,
                self@ == insert_chunks(old(self)@, asn@, rec@, i as nat),
            decreases count - i,
        {
            assert(start < n);
            let end = if n - start > CHUNK_SIZE { start + CHUNK_SIZE } else { n };
            let part = copy_range(&rec.ip_ranges, start, end);
            let key = chunk_key_string(&asn, i);
            let piece = AsnData { display_name: rec.display_name.clone(), ip_ranges: part };
            assert(piece@ == chunk(rec@, i as nat));
            self.insert(key, piece);
            i = i + 1;
            start = end;
        }
    }
}

/// Merges each ASN's record, in order, into a new map; chunking applies where
/// no IP version filter was used.
pub fn merge_records(results: Vec<(String, AsnData)>, filter: Option<IpVersion>) -> (r: ResultMap)
    ensures
        r.wf(),
        r@ == merged(results_view(results@), filter is None),
{
    let chunked = filter.is_none();
    let ghost rv = results_view(results@);
    let mut map = ResultMap::new();
    let mut rest = results;
    let ghost mut taken: Seq<(String, AsnData)> = Seq::empty();
    let ghost all = rest@;
    proof {
        assert(taken + rest@ =~= all);
        assert(results_view(taken) =~= Seq::empty());
    }
    while rest.len() > 0
        invariant
            map.wf(),
            chunked == filter is None,
            taken + rest@ == all,
            map@ == merged(results_view(taken), chunked),
        decreases rest.len(),
    {
        let ghost before = rest@;
        let (asn, rec) = rest.remove(0);
        proof {
            let t2 = taken.push((asn, rec));
            assert(results_view(t2).drop_last() =~= results_view(taken));
            assert(before =~= seq![(asn, rec)] + rest@);
            assert(t2 + rest@ =~= taken + before);
            taken = t2;
        }
        map.merge_record(asn, rec, chunked);
    }
    proof {
        assert(taken =~= all);
    }
    map
}

} // verus!
