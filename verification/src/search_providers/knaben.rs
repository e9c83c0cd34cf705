//! The Knaben search provider.  Knaben is queried with a POST request whose
//! JSON body carries the query, the sort key and the native category codes;
//! its response is a JSON object whose `hits` array holds one entry per
//! torrent.  Entries without a content hash are excluded from the results.

use vstd::prelude::*;
use vstd::string::StringExecFns;

use crate::Category;
use crate::SearchRequest;
use crate::Torrent;
use crate::TorrentView;
use crate::contains_category;
use crate::errors::ClientError;
use crate::json::JsonTree;
use crate::json::doc_of;
use crate::json::json_error_message;
use crate::json::json_from_str;
use crate::json::json_get;
use crate::json::json_str_field;
use crate::json::json_u32_field;
use crate::json::json_u64_field;
use crate::json::tree_member;
use crate::json::tree_text_member;
use crate::json::tree_u32_member;
use crate::json::tree_uint_member;
use crate::json::value_view;
use crate::order_by_label;
use crate::text::append_json_escaped;
use crate::text::append_u32;
use crate::text::dec_digits;
use crate::text::json_escaped;
use crate::wire::HttpMethod;
use crate::wire::WireRequest;
use crate::wire::WireRequestView;

verus! {

/// The Knaben provider: queries and parses data from the Knaben API.
#[derive(Debug)]
pub struct Knaben {
    api_url: String,
}

/// The native Knaben category code for each common category.
pub open spec fn knaben_code(c: Category) -> u32 {
    match c {
        Category::Movies => 3000000u32,
        Category::TvShows => 2000000u32,
        Category::Games => 4001000u32,
        Category::Software => 4002000u32,
        Category::Audio => 1000000u32,
        Category::Anime => 6000000u32,
        Category::Xxx => 5000000u32,
    }
}

/// The native codes for a category list, in order.
pub open spec fn knaben_codes(cats: Seq<Category>) -> Seq<u32> {
    cats.map_values(|c: Category| knaben_code(c))
}

fn knaben_code_exec(c: Category) -> (r: u32)
    ensures
        r == knaben_code(c),
{
    match c {
        Category::Movies => 3000000,
        Category::TvShows => 2000000,
        Category::Games => 4001000,
        Category::Software => 4002000,
        Category::Audio => 1000000,
        Category::Anime => 6000000,
        Category::Xxx => 5000000,
    }
}

/// The body of a Knaben API request.
#[derive(Debug)]
pub struct KnabenRequest {
    /// The type of search to perform.
    pub search_type: String,
    /// The field to search within.
    pub search_field: String,
    /// The query string to search for.
    pub query: String,
    /// The field by which results are ordered.
    pub order_by: String,
    /// The direction of ordering.
    pub order_direction: String,
    /// Native category codes to filter by, or nothing for all categories.
    pub categories: Option<Vec<u32>>,
    /// The number of results to retrieve.
    pub size: u32,
    /// Whether to hide unsafe or potentially malicious results.
    pub hide_unsafe: bool,
    /// Whether to hide adult content.
    pub hide_xxx: bool,
    /// Only torrents seen within this many seconds are returned.
    pub seconds_since_last_seen: u32,
}

/// The mathematical image of a [`KnabenRequest`].
#[verifier::ext_equal]
pub struct KnabenRequestView {
    pub search_type: Seq<char>,
    pub search_field: Seq<char>,
    pub query: Seq<char>,
    pub order_by: Seq<char>,
    pub order_direction: Seq<char>,
    pub categories: Option<Seq<u32>>,
    pub size: u32,
    pub hide_unsafe: bool,
    pub hide_xxx: bool,
    pub seconds_since_last_seen: u32,
}

impl View for KnabenRequest {
    type V = KnabenRequestView;

    open spec fn view(&self) -> KnabenRequestView {
        KnabenRequestView {
            search_type: self.search_type@,
            search_field: self.search_field@,
            query: self.query@,
            order_by: self.order_by@,
            order_direction: self.order_direction@,
            categories: match self.categories {
                None => None,
                Some(v) => Some(v@),
            },
            size: self.size,
            hide_unsafe: self.hide_unsafe,
            hide_xxx: self.hide_xxx,
            seconds_since_last_seen: self.seconds_since_last_seen,
        }
    }
}

/// The Knaben request that a search request translates to: a score search
/// on titles, ordered descending by the request's sort key, capped at 50
/// results seen within the last day.  An empty category list translates to
/// no category filter at all, and the presence of the adult category turns
/// the hide-adult-content flag off.
pub open spec fn spec_knaben_request(req: SearchRequest) -> KnabenRequestView {
    KnabenRequestView {
        search_type: "score"@,
        search_field: "title"@,
        query: req.query@,
        order_by: order_by_label(req.order_by),
        order_direction: "desc"@,
        categories: if req.categories@.len() == 0 {
            None
        } else {
            Some(knaben_codes(req.categories@))
        },
        size: 50,
        hide_unsafe: true,
        hide_xxx: !req.categories@.contains(Category::Xxx),
        seconds_since_last_seen: 86400,
    }
}

/// The JSON rendering of a code list, comma separated.
pub open spec fn codes_json(v: Seq<u32>) -> Seq<char>
    decreases v.len(),
{
    if v.len() == 0 {
        Seq::empty()
    } else if v.len() == 1 {
        dec_digits(v[0] as nat)
    } else {
        codes_json(v.drop_last()) + ","@ + dec_digits(v.last() as nat)
    }
}

/// The JSON rendering of the optional code list: an array, or null.
pub open spec fn categories_json(cats: Option<Seq<u32>>) -> Seq<char> {
    match cats {
        None => "null"@,
        Some(v) => "["@ + codes_json(v) + "]"@,
    }
}

/// The JSON rendering of a boolean.
pub open spec fn bool_json(b: bool) -> Seq<char> {
    if b {
        "true"@
    } else {
        "false"@
    }
}

/// The JSON body sent to Knaben: one object with the request's fields, in
/// a fixed order, with every string escaped as a JSON string literal.
pub open spec fn knaben_body(r: KnabenRequestView) -> Seq<char> {
    "{\"search_type\":\""@ + json_escaped(r.search_type) + "\",\"search_field\":\""@
        + json_escaped(r.search_field) + "\",\"query\":\""@ + json_escaped(r.query)
        + "\",\"order_by\":\""@ + json_escaped(r.order_by) + "\",\"order_direction\":\""@
        + json_escaped(r.order_direction) + "\",\"categories\":"@ + categories_json(r.categories)
        + ",\"size\":"@ + dec_digits(r.size as nat) + ",\"hide_unsafe\":"@ + bool_json(
        r.hide_unsafe,
    ) + ",\"hide_xxx\":"@ + bool_json(r.hide_xxx) + ",\"seconds_since_last_seen\":"@ + dec_digits(
        r.seconds_since_last_seen as nat,
    ) + "}"@
}

impl KnabenRequest {
    /// Translates a search request into the Knaben request shape.
    pub fn from_search_request(request: &SearchRequest) -> (r: KnabenRequest)
        ensures
            r@ == spec_knaben_request(*request),
    {
        let categories: Option<Vec<u32>> = if request.categories.len() == 0 {
            None
        } else {
            let mut v: Vec<u32> = Vec::new();
            let mut i: usize = 0;
            while i < request.categories.len()
                invariant
                    0 <= i <= request.categories@.len(),
                    v@ == knaben_codes(request.categories@.take(i as int)),
                decreases request.categories@.len() - i,
            {
                v.push(knaben_code_exec(request.categories[i]));
                proof {
                    assert(knaben_codes(request.categories@.take(i + 1)) =~= knaben_codes(
                        request.categories@.take(i as int),
                    ).push(knaben_code(request.categories@[i as int])));
                }
                i = i + 1;
            }
            proof {
                assert(request.categories@.take(request.categories@.len() as int)
                    =~= request.categories@);
            }
            Some(v)
        };
        let hide_xxx = !contains_category(&request.categories, Category::Xxx);
        let r = KnabenRequest {
            search_type: String::from_str("score"),
            search_field: String::from_str("title"),
            query: request.query.clone(),
            order_by: String::from_str(request.order_by.as_str()),
            order_direction: String::from_str("desc"),
            categories,
            size: 50,
            hide_unsafe: true,
            hide_xxx,
            seconds_since_last_seen: 86400,
        };
        proof {
            assert(r@ =~= spec_knaben_request(*request));
        }
        r
    }

    /// Renders this request as its JSON body.
    pub fn to_json(&self) -> (s: String)
        ensures
            s@ == knaben_body(self@),
    {
        let mut out = String::from_str("{\"search_type\":\"");
        append_json_escaped(&mut out, self.search_type.as_str());
        out.append("\",\"search_field\":\"");
        append_json_escaped(&mut out, self.search_field.as_str());
        out.append("\",\"query\":\"");
        append_json_escaped(&mut out, self.query.as_str());
        out.append("\",\"order_by\":\"");
        append_json_escaped(&mut out, self.order_by.as_str());
        out.append("\",\"order_direction\":\"");
        append_json_escaped(&mut out, self.order_direction.as_str());
        out.append("\",\"categories\":");
        let ghost prefix = out@;
        match &self.categories {
            None => {
                out.append("null");
            },
            Some(v) => {
                out.append("[");
                let mut i: usize = 0;
                while i < v.len()
                    invariant
                        0 <= i <= v@.len(),
                        out@ == prefix + "["@ + codes_json(v@.take(i as int)),
                    decreases v@.len() - i,
                {
                    if i > 0 {
                        out.append(",");
                    }
                    append_u32(&mut out, v[i]);
                    proof {
                        assert(v@.take(i + 1).drop_last() =~= v@.take(i as int));
                        assert(v@.take(i + 1).last() == v@[i as int]);
                        if i == 0 {
                            assert(out@ =~= prefix + "["@ + codes_json(v@.take(i + 1)));
                        } else {
                            assert(out@ =~= prefix + "["@ + codes_json(v@.take(i + 1)));
                        }
                    }
                    i = i + 1;
                }
                out.append("]");
                proof {
                    assert(v@.take(v@.len() as int) =~= v@);
                }
            },
        }
        proof {
            assert(out@ =~= prefix + categories_json(self@.categories));
        }
        out.append(",\"size\":");
        append_u32(&mut out, self.size);
        out.append(",\"hide_unsafe\":");
        out.append(if self.hide_unsafe { "true" } else { "false" });
        out.append(",\"hide_xxx\":");
        out.append(if self.hide_xxx { "true" } else { "false" });
        out.append(",\"seconds_since_last_seen\":");
        append_u32(&mut out, self.seconds_since_last_seen);
        out.append("}");
        proof {
            assert(out@ =~= knaben_body(self@));
        }
        out
    }
}

/// A single entry of the Knaben API response.
#[derive(Debug)]
pub struct ResponseEntry {
    /// Unique identifier for the torrent.
    pub id: String,
    /// Title of the torrent.
    pub title: String,
    /// Content hash of the torrent, used in the magnet link; entries
    /// without one are excluded from the results.
    pub hash: Option<String>,
    /// Number of peers sharing the torrent.
    pub peers: u32,
    /// Number of seeders sharing the torrent.
    pub seeders: u32,
    /// Size of the torrent in bytes.
    pub bytes: u64,
    /// Date when the torrent was added.
    pub date: String,
    /// The tracker where the torrent is hosted.
    pub tracker: String,
    /// Native category codes associated with the torrent.
    pub category_id: Vec<u32>,
}

/// The mathematical image of a [`ResponseEntry`].
#[verifier::ext_equal]
pub struct ResponseEntryView {
    pub id: Seq<char>,
    pub title: Seq<char>,
    pub hash: Option<Seq<char>>,
    pub peers: u32,
    pub seeders: u32,
    pub bytes: u64,
    pub date: Seq<char>,
    pub tracker: Seq<char>,
    pub category_id: Seq<u32>,
}

impl View for ResponseEntry {
    type V = ResponseEntryView;

    open spec fn view(&self) -> ResponseEntryView {
        ResponseEntryView {
            id: self.id@,
            title: self.title@,
            hash: self.hash.deep_view(),
            peers: self.peers,
            seeders: self.seeders,
            bytes: self.bytes,
            date: self.date@,
            tracker: self.tracker@,
            category_id: self.category_id@,
        }
    }
}

impl DeepView for ResponseEntry {
    type V = ResponseEntryView;

    open spec fn deep_view(&self) -> ResponseEntryView {
        self.view()
    }
}

/// The torrents one response entry yields: one torrent carrying the entry's
/// fields, the magnet link derived from its hash, and the tracker as
/// provenance — or none at all when the entry has no hash.
pub open spec fn knaben_entry_torrents(e: ResponseEntryView) -> Seq<TorrentView> {
    match e.hash {
        None => Seq::empty(),
        Some(h) => seq![
            TorrentView {
                name: e.title,
                magnet_link: "magnet:?xt=urn:btih:"@ + h,
                seeders: e.seeders,
                peers: e.peers,
                size_bytes: e.bytes,
                provider: e.tracker + " (via Knaben)"@,
            },
        ],
    }
}

/// The torrents a whole entry list yields, in order.
pub open spec fn knaben_torrents(entries: Seq<ResponseEntryView>) -> Seq<TorrentView>
    decreases entries.len(),
{
    if entries.len() == 0 {
        Seq::empty()
    } else {
        knaben_torrents(entries.drop_last()) + knaben_entry_torrents(entries.last())
    }
}

/// Every torrent the parse yields derives its magnet link from the entry's
/// content hash under the fixed magnet template, and its provenance names
/// the tracker that hosts it, via Knaben.
pub proof fn lemma_knaben_provenance(entries: Seq<ResponseEntryView>)
    ensures
        crate::magnet_templated(knaben_torrents(entries)),
        forall|k: int|
            0 <= k < knaben_torrents(entries).len() ==> exists|t: Seq<char>|
                (#[trigger] knaben_torrents(entries)[k]).provider == t + " (via Knaben)"@,
    decreases entries.len(),
{
    if entries.len() == 0 {
    } else {
        lemma_knaben_provenance(entries.drop_last());
        let pre = knaben_torrents(entries.drop_last());
        let last_part = knaben_entry_torrents(entries.last());
        let whole = knaben_torrents(entries);
        assert forall|k: int| 0 <= k < whole.len() implies ((exists|t: Seq<char>|
            (#[trigger] whole[k]).provider == t + " (via Knaben)"@) && exists|h: Seq<char>|
            whole[k].magnet_link == "magnet:?xt=urn:btih:"@ + h) by {
            if k < pre.len() {
                assert(whole[k] == pre[k]);
            } else {
                assert(whole[k] == last_part[k - pre.len()]);
                match entries.last().hash {
                    None => {},
                    Some(h) => {
                        assert(whole[k].magnet_link == "magnet:?xt=urn:btih:"@ + h);
                        assert(whole[k].provider == entries.last().tracker + " (via Knaben)"@);
                    },
                }
            }
        }
    }
}

/// The 32-bit category code one `categoryId` element stands for, when it is
/// one.
pub open spec fn spec_category_code(t: JsonTree) -> Option<u32> {
    match t {
        JsonTree::UInt(n) => if n <= u32::MAX as u64 {
            Some(n as u32)
        } else {
            None
        },
        _ => None,
    }
}

/// Whether every element of a `categoryId` array is a 32-bit code.
pub open spec fn category_codes_ok(elems: Seq<JsonTree>) -> bool {
    forall|i: int| 0 <= i < elems.len() ==> spec_category_code(#[trigger] elems[i]) is Some
}

/// The codes of a `categoryId` array, or nothing when one element is not a
/// 32-bit code.
pub open spec fn spec_category_codes(elems: Seq<JsonTree>) -> Option<Seq<u32>> {
    if category_codes_ok(elems) {
        Some(Seq::new(elems.len(), |i: int| spec_category_code(elems[i]).unwrap()))
    } else {
        None
    }
}

/// The hash of an entry: absent or null means no hash, a string is the
/// hash, and anything else makes the entry ill-typed.
pub open spec fn spec_knaben_hash(t: JsonTree) -> Option<Option<Seq<char>>> {
    match tree_member(t, "hash"@) {
        None => Some(None),
        Some(JsonTree::Null) => Some(None),
        Some(JsonTree::Text(s)) => Some(Some(s)),
        Some(_) => None,
    }
}

/// The image of one `hits` entry, when every required field is present and
/// well-typed.
pub open spec fn spec_knaben_entry(t: JsonTree) -> Option<ResponseEntryView> {
    match (tree_text_member(t, "id"@), tree_text_member(t, "title"@), spec_knaben_hash(t)) {
        (Some(id), Some(title), Some(hash)) => match (
            tree_u32_member(t, "peers"@),
            tree_u32_member(t, "seeders"@),
            tree_uint_member(t, "bytes"@),
        ) {
            (Some(peers), Some(seeders), Some(bytes)) => match (
                tree_text_member(t, "date"@),
                tree_text_member(t, "tracker"@),
                match tree_member(t, "categoryId"@) {
                    Some(JsonTree::Arr(elems)) => spec_category_codes(elems),
                    _ => None,
                },
            ) {
                (Some(date), Some(tracker), Some(category_id)) => Some(
                    ResponseEntryView {
                        id,
                        title,
                        hash,
                        peers,
                        seeders,
                        bytes,
                        date,
                        tracker,
                        category_id,
                    },
                ),
                _ => None,
            },
            _ => None,
        },
        _ => None,
    }
}

/// Whether every element of a `hits` array is a well-typed entry.
pub open spec fn knaben_entries_ok(elems: Seq<JsonTree>) -> bool {
    forall|i: int| 0 <= i < elems.len() ==> spec_knaben_entry(#[trigger] elems[i]) is Some
}

/// The entries of a `hits` array, or nothing when one element is ill-typed.
pub open spec fn spec_knaben_entries(elems: Seq<JsonTree>) -> Option<Seq<ResponseEntryView>> {
    if knaben_entries_ok(elems) {
        Some(Seq::new(elems.len(), |i: int| spec_knaben_entry(elems[i]).unwrap()))
    } else {
        None
    }
}

/// The entries a Knaben response body decodes to: the well-typed entries of
/// the `hits` array of its JSON document, or nothing when the body is not
/// JSON of that shape.
pub open spec fn knaben_hits_of(body: Seq<char>) -> Option<Seq<ResponseEntryView>> {
    match doc_of(body) {
        Some(doc) => match tree_member(doc, "hits"@) {
            Some(JsonTree::Arr(elems)) => spec_knaben_entries(elems),
            _ => None,
        },
        None => None,
    }
}

/// Reads one entry of the `hits` array; nothing when a required field is
/// absent or of the wrong kind.
fn decode_entry(v: &serde_json::Value) -> (r: Option<ResponseEntry>)
    ensures
        r matches Some(e) ==> spec_knaben_entry(value_view(*v)) == Some(e.deep_view()),
        r is None ==> spec_knaben_entry(value_view(*v)) is None,
{
    let id = json_str_field(v, "id")?;
    let title = json_str_field(v, "title")?;
    let hash: Option<String> = match json_get(v, "hash") {
        None => None,
        Some(h) => {
            if h.is_null() {
                None
            } else {
                match h.as_str() {
                    Some(s) => Some(s.to_owned()),
                    None => {
                        return None;
                    },
                }
            }
        },
    };
    let peers = json_u32_field(v, "peers")?;
    let seeders = json_u32_field(v, "seeders")?;
    let bytes = json_u64_field(v, "bytes")?;
    let date = json_str_field(v, "date")?;
    let tracker = json_str_field(v, "tracker")?;
    let category_id = decode_code_array(v)?;
    let entry = ResponseEntry {
        id,
        title,
        hash,
        peers,
        seeders,
        bytes,
        date,
        tracker,
        category_id,
    };
    proof {
        assert(spec_knaben_entry(value_view(*v)).unwrap() =~= entry.deep_view());
    }
    Some(entry)
}

/// Reads the `categoryId` field as a list of 32-bit codes.
fn decode_code_array(v: &serde_json::Value) -> (r: Option<Vec<u32>>)
    ensures
        r matches Some(codes) ==> (match tree_member(value_view(*v), "categoryId"@) {
            Some(JsonTree::Arr(elems)) => spec_category_codes(elems) == Some(codes@),
            _ => false,
        }),
        r is None ==> (match tree_member(value_view(*v), "categoryId"@) {
            Some(JsonTree::Arr(elems)) => spec_category_codes(elems) is None,
            _ => true,
        }),
{
    let member = match json_get(v, "categoryId") {
        Some(f) => f,
        None => {
            return None;
        },
    };
    let arr = match member.as_array() {
        Some(a) => a,
        None => {
            return None;
        },
    };
    let ghost elems = value_view(*member)->Arr_0;
    let mut codes: Vec<u32> = Vec::new();
    let mut i: usize = 0;
    while i < arr.len()
        invariant
            0 <= i <= arr@.len(),
            elems.len() == arr@.len(),
            forall|j: int| 0 <= j < arr@.len() ==> value_view(#[trigger] arr@[j]) == elems[j],
            tree_member(value_view(*v), "categoryId"@) == Some(JsonTree::Arr(elems)),
            codes@.len() == i,
            forall|j: int|
                0 <= j < i ==> #[trigger] spec_category_code(elems[j]) == Some(codes@[j]),
        decreases arr@.len() - i,
    {
        match arr[i].as_u64() {
            Some(n) => {
                if n <= u32::MAX as u64 {
                    codes.push(n as u32);
                } else {
                    proof {
                        assert(spec_category_code(elems[i as int]) is None);
                    }
                    return None;
                }
            },
            None => {
                proof {
                    assert(!(elems[i as int] is UInt));
                    assert(spec_category_code(elems[i as int]) is None);
                }
                return None;
            },
        }
        i = i + 1;
    }
    proof {
        assert(category_codes_ok(elems));
        assert(spec_category_codes(elems) matches Some(cs) && cs =~= codes@);
    }
    Some(codes)
}

/// Reads a whole response body: the entries of the `hits` array of its JSON
/// document — every field present and well-typed, with `hash` optional and
/// nullable — or the decoder's message.
fn read_hits(response: &str) -> (r: Result<Vec<ResponseEntry>, String>)
    ensures
        r matches Ok(es) ==> knaben_hits_of(response@) == Some(es.deep_view()),
        r matches Err(m) ==> knaben_hits_of(response@) is None,
{
    let doc = match json_from_str(response) {
        Ok(d) => d,
        Err(e) => {
            return Err(json_error_message(&e));
        },
    };
    let member = match json_get(&doc, "hits") {
        Some(f) => f,
        None => {
            return Err(String::from_str("response does not hold the expected hits entries"));
        },
    };
    let arr = match member.as_array() {
        Some(a) => a,
        None => {
            return Err(String::from_str("response does not hold the expected hits entries"));
        },
    };
    let ghost elems = value_view(*member)->Arr_0;
    let mut entries: Vec<ResponseEntry> = Vec::new();
    let mut i: usize = 0;
    while i < arr.len()
        invariant
            0 <= i <= arr@.len(),
            elems.len() == arr@.len(),
            forall|j: int| 0 <= j < arr@.len() ==> value_view(#[trigger] arr@[j]) == elems[j],
            doc_of(response@) == Some(value_view(doc)),
            tree_member(value_view(doc), "hits"@) == Some(JsonTree::Arr(elems)),
            entries@.len() == i,
            forall|j: int|
                0 <= j < i ==> #[trigger] spec_knaben_entry(elems[j]) == Some(
                    entries.deep_view()[j],
                ),
        decreases arr@.len() - i,
    {
        match decode_entry(&arr[i]) {
            Some(e) => {
                let ghost ev = e.deep_view();
                entries.push(e);
                proof {
                    assert(value_view(arr@[i as int]) == elems[i as int]);
                    assert(entries.deep_view()[i as int] == ev);
                }
            },
            None => {
                proof {
                    assert(spec_knaben_entry(elems[i as int]) is None);
                }
                return Err(String::from_str("response does not hold the expected hits entries"));
            },
        }
        i = i + 1;
    }
    proof {
        assert(knaben_entries_ok(elems));
        assert(spec_knaben_entries(elems) matches Some(es) && es =~= entries.deep_view());
    }
    Ok(entries)
}

/// Turns decoded response entries into torrents: entries with a hash are
/// kept, in order, and entries without one are dropped.
pub fn torrents_from_entries(entries: &Vec<ResponseEntry>) -> (ts: Vec<Torrent>)
    ensures
        ts.deep_view() == knaben_torrents(entries.deep_view()),
{
    let mut ts: Vec<Torrent> = Vec::new();
    let mut i: usize = 0;
    proof {
        assert(ts.deep_view() =~= knaben_torrents(entries.deep_view().take(0)));
    }
    while i < entries.len()
        invariant
            0 <= i <= entries@.len(),
            ts.deep_view() == knaben_torrents(entries.deep_view().take(i as int)),
        decreases entries@.len() - i,
    {
        let entry = &entries[i];
        let ghost old_ts = ts.deep_view();
        match &entry.hash {
            None => {},
            Some(hash) => {
                let mut magnet = String::from_str("magnet:?xt=urn:btih:");
                magnet.append(hash.as_str());
                let mut provider = entry.tracker.clone();
                provider.append(" (via Knaben)");
                let torrent = Torrent {
                    name: entry.title.clone(),
                    magnet_link: magnet,
                    seeders: entry.seeders,
                    peers: entry.peers,
                    size_bytes: entry.bytes,
                    provider,
                };
                ts.push(torrent);
                proof {
                    assert(ts.deep_view() =~= old_ts.push(torrent@));
                }
            },
        }
        proof {
            assert(entries.deep_view().take(i + 1).drop_last() =~= entries.deep_view().take(
                i as int,
            ));
            assert(entries.deep_view().take(i + 1).last() == entries@[i as int].deep_view());
            assert(ts.deep_view() =~= knaben_torrents(entries.deep_view().take(i + 1)));
        }
        i = i + 1;
    }
    proof {
        assert(entries.deep_view().take(entries@.len() as int) =~= entries.deep_view());
    }
    ts
}

impl Knaben {
    /// The provider's registry key: its API URL.
    pub closed spec fn spec_id(&self) -> Seq<char> {
        self.api_url@
    }

    /// Creates a Knaben provider addressing the public Knaben API.
    pub fn new() -> (p: Knaben)
        ensures
            p.spec_id() == "https://api.knaben.eu/v1"@,
    {
        Knaben { api_url: String::from_str("https://api.knaben.eu/v1") }
    }

    /// Creates a Knaben provider addressing a custom API URL, useful when
    /// the provider changes its URL or a proxy stands in between.
    pub fn with_url(url: String) -> (p: Knaben)
        ensures
            p.spec_id() == url@,
    {
        Knaben { api_url: url }
    }

    /// Returns the unique identifier of this provider: its API URL.
    pub fn id(&self) -> (r: String)
        ensures
            r@ == self.spec_id(),
    {
        self.api_url.clone()
    }

    /// The wire request this provider sends: a POST of the JSON body to the
    /// API URL, marked as JSON content.
    pub open spec fn spec_build_request(&self, request: SearchRequest) -> WireRequestView {
        WireRequestView {
            method: HttpMethod::Post,
            url: self.spec_id(),
            query: Seq::empty(),
            headers: seq![("content-type"@, "application/json"@)],
            body: Some(knaben_body(spec_knaben_request(request))),
        }
    }

    /// Builds the wire request that queries the Knaben API.
    pub fn build_request(&self, request: &SearchRequest) -> (w: WireRequest)
        ensures
            w@ == self.spec_build_request(*request),
    {
        let knaben_request = KnabenRequest::from_search_request(request);
        let body = knaben_request.to_json();
        let mut headers: Vec<(String, String)> = Vec::new();
        headers.push((String::from_str("content-type"), String::from_str("application/json")));
        let w = WireRequest {
            method: HttpMethod::Post,
            url: self.api_url.clone(),
            query: Vec::new(),
            headers,
            body: Some(body),
        };
        proof {
            assert(w@.query =~= self.spec_build_request(*request).query);
            assert(w@.headers =~= self.spec_build_request(*request).headers);
        }
        w
    }

    /// Parses a Knaben response body into torrents.  The parse fails, with
    /// a data-parse error, exactly when the body does not decode as a JSON
    /// object with a `hits` array of well-formed entries; otherwise it
    /// returns exactly the torrents of the decoded entries, in order —
    /// entries without a hash dropped, and an empty array a success with no
    /// results.
    pub fn parse_response(&self, response: &str) -> (r: Result<Vec<Torrent>, ClientError>)
        ensures
            knaben_hits_of(response@) matches Some(es) ==> (r matches Ok(ts) && ts.deep_view()
                == knaben_torrents(es)),
            knaben_hits_of(response@) is None ==> (r matches Err(e) && e is DataParseError),
            r matches Ok(ts) ==> crate::magnet_templated(ts.deep_view()),
    {
        let entries = match read_hits(response) {
            Ok(v) => v,
            Err(m) => {
                return Err(ClientError::DataParseError(m));
            },
        };
        let ts = torrents_from_entries(&entries);
        proof {
            let es = entries.deep_view();
            assert(ts.deep_view() == knaben_torrents(es));
            lemma_knaben_provenance(es);
        }
        Ok(ts)
    }
}

impl Default for Knaben {
    /// A Knaben provider addressing the public Knaben API.
    fn default() -> (p: Knaben)
        ensures
            p.spec_id() == "https://api.knaben.eu/v1"@,
    {
        Knaben::new()
    }
}

} // verus!
