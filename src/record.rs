use vstd::prelude::*;
use vstd::string::*;
use crate::json::{Json, json_parse, member, parse_json, get_member};

verus! {

/// The part of the upstream path that comes before the ASN.
pub const AGGREGATE_URL_PREFIX: &'static str = "https://raw.githubusercontent.com/ipverse/asn-ip/master/as/";

/// The part of the upstream path that comes after the ASN.
pub const AGGREGATE_URL_SUFFIX: &'static str = "/aggregated.json";

/// One ASN's resolved data: who it is and which prefixes it announces.
pub struct AsnData {
    pub display_name: String,
    pub ip_ranges: Vec<String>,
}

/// The mathematical value of an `AsnData`.
pub struct AsnModel {
    pub display_name: Seq<char>,
    pub ip_ranges: Seq<Seq<char>>,
}

/// The texts held by a sequence of strings.
pub open spec fn texts(v: Seq<String>) -> Seq<Seq<char>> {
    v.map_values(|s: String| s@)
}

impl View for AsnData {
    type V = AsnModel;

    open spec fn view(&self) -> AsnModel {
        AsnModel { display_name: self.display_name@, ip_ranges: texts(self.ip_ranges@) }
    }
}

/// Which subnet list of an aggregate document is asked for.
#[derive(Clone, Copy, PartialEq, Eq, Structural, Debug)]
pub enum IpVersion {
    V4,
    V6,
}

/// Why an upstream answer could not be read into a record.
#[derive(Clone, Copy, PartialEq, Eq, Structural, Debug)]
pub enum FetchError {
    /// The body is not JSON.
    MalformedJson,
    /// A selected subnet list holds an item that is not a string.
    NonTextRange,
}

/// The member name of a subnet list.
pub open spec fn version_key(v: IpVersion) -> Seq<char> {
    match v {
        IpVersion::V4 => "ipv4"@,
        IpVersion::V6 => "ipv6"@,
    }
}

/// The items of an array, and nothing for any other value.
pub open spec fn array_items(j: Json) -> Seq<Json> {
    match j {
        Json::Array(a) => a@,
        _ => Seq::empty(),
    }
}

/// `doc["subnets"][version]` as a list; empty where it is missing or no array.
pub open spec fn subnet_list(doc: Json, v: IpVersion) -> Seq<Json> {
    array_items(member(member(doc, "subnets"@), version_key(v)))
}

/// The subnet items that a filter selects: both lists, IPv4 first, or one.
pub open spec fn selected(doc: Json, filter: Option<IpVersion>) -> Seq<Json> {
    match filter {
        None => subnet_list(doc, IpVersion::V4) + subnet_list(doc, IpVersion::V6),
        Some(v) => subnet_list(doc, v),
    }
}

/// `doc["handle"]` where it is a string, else the empty text.
pub open spec fn handle_of(doc: Json) -> Seq<char> {
    match member(doc, "handle"@) {
        Json::Str(s) => s@,
        _ => Seq::empty(),
    }
}

pub open spec fn all_strings(items: Seq<Json>) -> bool {
    forall|i: int| 0 <= i < items.len() ==> items[i] is Str
}

pub open spec fn string_text(j: Json) -> Seq<char> {
    match j {
        Json::Str(s) => s@,
        _ => Seq::empty(),
    }
}

pub open spec fn string_items(items: Seq<Json>) -> Seq<Seq<char>> {
    items.map_values(|j: Json| string_text(j))
}

/// The record that an aggregate document describes.
pub open spec fn document_record(doc: Json, filter: Option<IpVersion>) -> Result<AsnModel, FetchError> {
    if all_strings(selected(doc, filter)) {
        Ok(AsnModel { display_name: handle_of(doc), ip_ranges: string_items(selected(doc, filter)) })
    } else {
        Err(FetchError::NonTextRange)
    }
}

/// The record that a successful answer's body describes.
pub open spec fn body_record(body: Seq<char>, filter: Option<IpVersion>) -> Result<AsnModel, FetchError> {
    match json_parse(body) {
        Some(doc) => document_record(doc, filter),
        None => Err(FetchError::MalformedJson),
    }
}

/// The record kept for an ASN that the upstream does not know.
pub open spec fn not_found_model(asn: Seq<char>) -> AsnModel {
    AsnModel { display_name: "ASN "@ + asn + " not found"@, ip_ranges: Seq::empty() }
}

/// The record for an answer: `None` stands for a non-success status.
pub open spec fn response_record(asn: Seq<char>, body: Option<Seq<char>>, filter: Option<IpVersion>) -> Result<AsnModel, FetchError> {
    match body {
        None => Ok(not_found_model(asn)),
        Some(b) => body_record(b, filter),
    }
}

pub open spec fn result_view(r: Result<AsnData, FetchError>) -> Result<AsnModel, FetchError> {
    match r {
        Ok(d) => Ok(d@),
        Err(e) => Err(e),
    }
}

/// The upstream location of an ASN's aggregate document.
pub fn aggregate_url(asn: &str) -> (r: String)
    ensures
        r@ == AGGREGATE_URL_PREFIX@ + asn@ + AGGREGATE_URL_SUFFIX@,
{
    let mut url = String::from_str(AGGREGATE_URL_PREFIX);
    url.append(asn);
    url.append(AGGREGATE_URL_SUFFIX);
    url
}

/// The placeholder record for an ASN whose lookup did not succeed.
pub fn not_found_record(asn: &str) -> (r: AsnData)
    ensures
        r@ == not_found_model(asn@),
{
    let mut name = String::from_str("ASN ");
    name.append(asn);
    name.append(" not found");
    let r = AsnData { display_name: name, ip_ranges: Vec::new() };
    assert(r@.ip_ranges =~= Seq::<Seq<char>>::empty());
    r
}

/// Appends the strings of `list`'s items (none where it is no array) to `out`;
/// false, with `out` left partly filled, where an item is not a string.
fn push_strings(out: &mut Vec<String>, list: &Json) -> (ok: bool)
    ensures
        ok == all_strings(array_items(*list)),
        ok ==> texts(final(out)@) == texts(old(out)@) + string_items(array_items(*list)),
{
    match list {
        Json::Array(items) => {
            let mut i: usize = 0;
            while i < items.len()
                invariant
                    i <= items@.len(),
                    array_items(*list) == items@,
                    all_strings(items@.subrange(0, i as int)),
                    texts(out@) == texts(old(out)@) + string_items(items@.subrange(0, i as int)),
                decreases items.len() - i,
            {
                match &items[i] {
                    Json::Str(s) => {
                        let ghost prev = out@;
                        out.push(s.clone());
                        assert(texts(out@) =~= texts(prev).push(s@));
                        assert(string_items(items@.subrange(0, i + 1)) =~= string_items(
                            items@.subrange(0, i as int),
                        ).push(s@));
                        assert(texts(out@) =~= texts(old(out)@) + string_items(
                            items@.subrange(0, i + 1),
                        ));
                    },
                    _ => {
                        assert(!(items@[i as int] is Str));
                        return false;
                    },
                }
                i = i + 1;
            }
            assert(items@.subrange(0, i as int) =~= items@);
            true
        },
        _ => {
            assert(texts(out@) =~= texts(old(out)@) + string_items(Seq::empty()));
            true
        },
    }
}

/// The subnet list `doc["subnets"][version]`.
fn subnet_member(doc: &Json, v: IpVersion) -> (r: &Json)
    ensures
        array_items(*r) == subnet_list(*doc, v),
{
    let subnets = get_member(doc, &String::from_str("subnets"));
    match v {
        IpVersion::V4 => get_member(subnets, &String::from_str("ipv4")),
        IpVersion::V6 => get_member(subnets, &String::from_str("ipv6")),
    }
}

/// Reads an aggregate document into a record: the handle as display name, and
/// the selected subnet lists in order.
pub fn record_from_document(doc: &Json, filter: Option<IpVersion>) -> (r: Result<AsnData, FetchError>)
    ensures
        result_view(r) == document_record(*doc, filter),
{
    let display_name = match get_member(doc, &String::from_str("handle")) {
        Json::Str(s) => s.clone(),
        _ => String::new(),
    };
    let mut ranges: Vec<String> = Vec::new();
    let ghost sel = selected(*doc, filter);
    match filter {
        None => {
            let v4 = subnet_member(doc, IpVersion::V4);
            if !push_strings(&mut ranges, v4) {
                assert(!all_strings(sel)) by {
                    let k = choose|k: int| 0 <= k < array_items(*v4).len() && !(array_items(*v4)[k] is Str);
                    assert(sel[k] == array_items(*v4)[k]);
                }
                return Err(FetchError::NonTextRange);
            }
            let v6 = subnet_member(doc, IpVersion::V6);
            if !push_strings(&mut ranges, v6) {
                assert(!all_strings(sel)) by {
                    let k = choose|k: int| 0 <= k < array_items(*v6).len() && !(array_items(*v6)[k] is Str);
                    assert(sel[array_items(*v4).len() + k] == array_items(*v6)[k]);
                }
                return Err(FetchError::NonTextRange);
            }
            assert(texts(ranges@) =~= string_items(sel));
        },
        Some(v) => {
            let list = subnet_member(doc, v);
            if !push_strings(&mut ranges, list) {
                return Err(FetchError::NonTextRange);
            }
            assert(texts(ranges@) =~= string_items(sel));
        },
    }
    Ok(AsnData { display_name, ip_ranges: ranges })
}

/// Reads a successful answer's body into a record.
pub fn record_from_body(body: &str, filter: Option<IpVersion>) -> (r: Result<AsnData, FetchError>)
    ensures
        result_view(r) == body_record(body@, filter),
{
    match parse_json(body) {
        Some(doc) => record_from_document(&doc, filter),
        None => Err(FetchError::MalformedJson),
    }
}

/// The record for one upstream answer: `body` is `None` where the status was
/// not a success, and the ASN then gets its placeholder record.
pub fn record_from_response(asn: &str, body: Option<&str>, filter: Option<IpVersion>) -> (r: Result<AsnData, FetchError>)
    ensures
        result_view(r) == response_record(asn@, match body { Some(b) => Some(b@), None => None }, filter),
{
    match body {
        None => Ok(not_found_record(asn)),
        Some(b) => record_from_body(b, filter),
    }
}

} // verus!
