use vstd::prelude::*;
use crate::json::Json;
use crate::merge::{
    chunk, chunk_count, chunk_key, chunk_ranges, decimal, digit_char, insert_chunks, merge_step,
    merged_into,
};
use crate::record::{
    document_record, handle_of, not_found_model, response_record, subnet_list, AsnModel,
    IpVersion,
};

verus! {

proof fn lemma_digit_injective(x: nat, y: nat)
    requires
        x < 10,
        y < 10,
        digit_char(x) == digit_char(y),
    ensures
        x == y,
{
}

proof fn lemma_decimal_len(n: nat)
    ensures
        decimal(n).len() >= 1,
        n >= 10 ==> decimal(n).len() >= 2,
    decreases n,
{
    if n >= 10 {
        lemma_decimal_len(n / 10);
    }
}

proof fn lemma_decimal_injective(a: nat, b: nat)
    requires
        decimal(a) == decimal(b),
    ensures
        a == b,
    decreases a,
{
    lemma_decimal_len(a);
    lemma_decimal_len(b);
    if a < 10 && b < 10 {
        assert(decimal(a)[0] == digit_char(a));
        assert(decimal(b)[0] == digit_char(b));
        lemma_digit_injective(a, b);
    } else if a >= 10 && b >= 10 {
        assert(decimal(a).last() == digit_char(a % 10));
        assert(decimal(b).last() == digit_char(b % 10));
        lemma_digit_injective(a % 10, b % 10);
        assert(decimal(a).drop_last() =~= decimal(a / 10));
        assert(decimal(b).drop_last() =~= decimal(b / 10));
        lemma_decimal_injective(a / 10, b / 10);
    }
}

/// Distinct chunks of one ASN have distinct keys.
pub proof fn lemma_chunk_keys_distinct(asn: Seq<char>, i: nat, j: nat)
    requires
        i != j,
    ensures
        chunk_key(asn, i) != chunk_key(asn, j),
{
    if i != 0 && j != 0 {
        lemma_decimal_len(i + 1);
        lemma_decimal_len(j + 1);
        if chunk_key(asn, i) == chunk_key(asn, j) {
            let n = asn.len() + 1;
            assert(chunk_key(asn, i).subrange(n as int, chunk_key(asn, i).len() as int) =~= decimal(i + 1));
            assert(chunk_key(asn, j).subrange(n as int, chunk_key(asn, j).len() as int) =~= decimal(j + 1));
            lemma_decimal_injective(i + 1, j + 1);
        }
    } else if i == 0 && j != 0 {
        lemma_decimal_len(j + 1);
        assert(chunk_key(asn, j).len() > asn.len());
    } else if i != 0 {
        lemma_decimal_len(i + 1);
        assert(chunk_key(asn, i).len() > asn.len());
    }
}

/// The keys of the first `n` chunks of an ASN.
pub open spec fn chunk_keys(asn: Seq<char>, n: nat) -> Set<Seq<char>> {
    Set::new(|k: Seq<char>| exists|i: nat| i < n && k == chunk_key(asn, i))
}

/// The ranges of the first `n` chunks, one after another.
pub open spec fn concat_chunks(ranges: Seq<Seq<char>>, n: nat) -> Seq<Seq<char>>
    decreases n,
{
    if n == 0 {
        Seq::empty()
    } else {
        concat_chunks(ranges, (n - 1) as nat) + chunk_ranges(ranges, (n - 1) as nat)
    }
}

proof fn lemma_insert_chunks(asn: Seq<char>, rec: AsnModel, n: nat)
    ensures
        insert_chunks(Map::empty(), asn, rec, n).dom() == chunk_keys(asn, n),
        insert_chunks(Map::empty(), asn, rec, n).dom().finite(),
        insert_chunks(Map::empty(), asn, rec, n).dom().len() == n,
        forall|i: nat| i < n ==> #[trigger] insert_chunks(Map::empty(), asn, rec, n)[chunk_key(asn, i)] == chunk(rec, i),
    decreases n,
{
    let m = insert_chunks(Map::empty(), asn, rec, n);
    if n == 0 {
        assert(m.dom() =~= chunk_keys(asn, n));
    } else {
        let p = insert_chunks(Map::empty(), asn, rec, (n - 1) as nat);
        lemma_insert_chunks(asn, rec, (n - 1) as nat);
        let last = chunk_key(asn, (n - 1) as nat);
        assert forall|k: Seq<char>| m.dom().contains(k) <==> chunk_keys(asn, n).contains(k) by {
            if chunk_keys(asn, n).contains(k) {
                let i = choose|i: nat| i < n && k == chunk_key(asn, i);
                if i < n - 1 {
                    assert(chunk_keys(asn, (n - 1) as nat).contains(k));
                }
            }
            if p.dom().contains(k) {
                let i = choose|i: nat| i < n - 1 && k == chunk_key(asn, i);
                assert(chunk_keys(asn, n).contains(k));
            }
        }
        assert(m.dom() =~= chunk_keys(asn, n));
        if p.dom().contains(last) {
            let i = choose|i: nat| i < n - 1 && last == chunk_key(asn, i);
            lemma_chunk_keys_distinct(asn, i, (n - 1) as nat);
        }
        assert forall|i: nat| i < n implies #[trigger] m[chunk_key(asn, i)] == chunk(rec, i) by {
            if i < n - 1 {
                lemma_chunk_keys_distinct(asn, i, (n - 1) as nat);
            }
        }
    }
}

proof fn lemma_concat_chunks(ranges: Seq<Seq<char>>, n: nat)
    requires
        2000 * (n as int) <= ranges.len() + 1999,
    ensures
        concat_chunks(ranges, n) == ranges.subrange(
            0,
            if 2000 * n <= ranges.len() { 2000 * n as int } else { ranges.len() as int },
        ),
    decreases n,
{
    if n > 0 {
        lemma_concat_chunks(ranges, (n - 1) as nat);
        let k = (n - 1) as nat;
        assert(2000 * k <= ranges.len());
        assert(concat_chunks(ranges, n) =~= ranges.subrange(
            0,
            if 2000 * n <= ranges.len() { 2000 * n as int } else { ranges.len() as int },
        ));
    } else {
        assert(concat_chunks(ranges, n) =~= ranges.subrange(0, 0));
    }
}

/// In combined mode, a record of one to `CHUNK_SIZE` ranges goes in whole,
/// under its ASN alone.
pub proof fn lemma_small_record_whole(m: Map<Seq<char>, AsnModel>, asn: Seq<char>, rec: AsnModel)
    requires
        0 < rec.ip_ranges.len() <= 2000,
    ensures
        merge_step(m, asn, rec, true) == m.insert(asn, rec),
        merged_into(Map::empty(), seq![(asn, rec)], true) == Map::<Seq<char>, AsnModel>::empty().insert(asn, rec),
{
    let s = seq![(asn, rec)];
    assert(s.drop_last() =~= Seq::<(Seq<char>, AsnModel)>::empty());
    assert(s.last() == (asn, rec));
    assert(merged_into(Map::empty(), s.drop_last(), true) == Map::<Seq<char>, AsnModel>::empty());
}

/// In combined mode, a record of more than `CHUNK_SIZE` ranges becomes
/// `ceil(n / CHUNK_SIZE)` records under the keys `asn`, `asn_2`, ...; each
/// holds at most `CHUNK_SIZE` ranges and the record's display name, and the
/// chunks in key order give back the ranges in their order.
pub proof fn lemma_large_record_chunked(asn: Seq<char>, rec: AsnModel)
    requires
        rec.ip_ranges.len() > 2000,
    ensures
        ({
            let m = merge_step(Map::empty(), asn, rec, true);
            let n = chunk_count(rec.ip_ranges.len());
            &&& n == (rec.ip_ranges.len() + 1999) / 2000
            &&& m.dom() == chunk_keys(asn, n)
            &&& m.dom().len() == n
            &&& forall|i: nat| i < n ==> {
                &&& #[trigger] m[chunk_key(asn, i)].ip_ranges.len() <= 2000
                &&& m[chunk_key(asn, i)].display_name == rec.display_name
                &&& m[chunk_key(asn, i)].ip_ranges == chunk_ranges(rec.ip_ranges, i)
            }
            &&& concat_chunks(rec.ip_ranges, n) == rec.ip_ranges
        }),
{
    let len = rec.ip_ranges.len();
    let n = chunk_count(len);
    assert(n == (len + 1999) / 2000);
    lemma_insert_chunks(asn, rec, n);
    lemma_concat_chunks(rec.ip_ranges, n);
    assert(2000 * n >= len);
    assert(rec.ip_ranges.subrange(0, len as int) =~= rec.ip_ranges);
}

/// A record without ranges adds no key and changes nothing, wherever it
/// stands among the results and in either mode.
pub proof fn lemma_empty_record_no_key(
    m: Map<Seq<char>, AsnModel>,
    before: Seq<(Seq<char>, AsnModel)>,
    asn: Seq<char>,
    rec: AsnModel,
    after: Seq<(Seq<char>, AsnModel)>,
    chunked: bool,
)
    requires
        rec.ip_ranges.len() == 0,
    ensures
        merged_into(m, before + seq![(asn, rec)] + after, chunked) == merged_into(m, before + after, chunked),
    decreases after.len(),
{
    if after.len() == 0 {
        assert(before + seq![(asn, rec)] + after =~= before.push((asn, rec)));
        assert(before + after =~= before);
        assert((before.push((asn, rec))).drop_last() =~= before);
    } else {
        let a2 = after.drop_last();
        lemma_empty_record_no_key(m, before, asn, rec, a2, chunked);
        assert((before + seq![(asn, rec)] + after).drop_last() =~= before + seq![(asn, rec)] + a2);
        assert((before + after).drop_last() =~= before + a2);
    }
}

/// An ASN that the upstream does not know gets its placeholder record, not an
/// error; that record has no ranges, so it adds no key, and the other ASNs
/// are merged as before.
pub proof fn lemma_not_found_absent(
    before: Seq<(Seq<char>, AsnModel)>,
    asn: Seq<char>,
    after: Seq<(Seq<char>, AsnModel)>,
    filter: Option<IpVersion>,
)
    ensures
        response_record(asn, None, filter) == Ok::<AsnModel, crate::record::FetchError>(not_found_model(asn)),
        not_found_model(asn).ip_ranges.len() == 0,
        merged_into(Map::empty(), before + seq![(asn, not_found_model(asn))] + after, filter is None)
            == merged_into(Map::empty(), before + after, filter is None),
{
    lemma_empty_record_no_key(Map::empty(), before, asn, not_found_model(asn), after, filter is None);
}

/// With a version filter the record reads the handle and that version's subnet
/// list only: two documents that agree on them give the same record.
pub proof fn lemma_filter_reads_one_list(d1: Json, d2: Json, v: IpVersion)
    requires
        handle_of(d1) == handle_of(d2),
        subnet_list(d1, v) == subnet_list(d2, v),
    ensures
        document_record(d1, Some(v)) == document_record(d2, Some(v)),
{
}

/// Without chunking, any record with ranges goes in whole under its ASN,
/// however many ranges it has.
pub proof fn lemma_unchunked_whole(m: Map<Seq<char>, AsnModel>, asn: Seq<char>, rec: AsnModel)
    requires
        rec.ip_ranges.len() > 0,
    ensures
        merge_step(m, asn, rec, false) == m.insert(asn, rec),
{
}

} // verus!
