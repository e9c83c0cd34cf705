//! The PirateBay search provider.  PirateBay is queried with a GET request
//! whose parameters carry the query and a comma-joined list of native
//! category codes; its response is a JSON array of entries whose numeric
//! fields are transmitted as text.  A source that has no results answers
//! with a single sentinel row, which is dropped rather than surfaced as a
//! fake torrent, and a row whose numeric text does not parse is dropped on
//! its own without failing the batch.

use vstd::prelude::*;
use vstd::string::StringExecFns;

use crate::Category;
use crate::SearchRequest;
use crate::Torrent;
use crate::TorrentView;
use crate::errors::ClientError;
use crate::json::JsonTree;
use crate::json::doc_of;
use crate::json::json_error_message;
use crate::json::json_from_str;
use crate::json::json_str_field;
use crate::json::tree_text_member;
use crate::json::value_view;
use crate::text::parse_u32;
use crate::text::parse_u64;
use crate::text::parse_unsigned_spec;
use crate::text::str_eq;
use crate::wire::HttpMethod;
use crate::wire::WireRequest;
use crate::wire::WireRequestView;

verus! {

/// The PirateBay provider: queries and parses data from the PirateBay API.
#[derive(Debug)]
pub struct PirateBay {
    api_url: String,
}

/// The native PirateBay code list for each common category, as it appears
/// in the `cat` parameter.  Multi-code categories are comma-joined; anime
/// has no dedicated code and is approximated by the broad video bucket.
pub open spec fn piratebay_code(c: Category) -> Seq<char> {
    match c {
        Category::Movies => "201,202,207,209,211"@,
        Category::TvShows => "205,208,212"@,
        Category::Games => "400"@,
        Category::Software => "300"@,
        Category::Audio => "100"@,
        Category::Anime => "200"@,
        Category::Xxx => "500"@,
    }
}

fn piratebay_code_exec(c: Category) -> (r: &'static str)
    ensures
        r@ == piratebay_code(c),
{
    match c {
        Category::Movies => "201,202,207,209,211",
        Category::TvShows => "205,208,212",
        Category::Games => "400",
        Category::Software => "300",
        Category::Audio => "100",
        Category::Anime => "200",
        Category::Xxx => "500",
    }
}

/// The `cat` parameter for a category list: the codes of every requested
/// category, comma-joined in request order.
pub open spec fn piratebay_cat_param(cats: Seq<Category>) -> Seq<char>
    decreases cats.len(),
{
    if cats.len() == 0 {
        Seq::empty()
    } else if cats.len() == 1 {
        piratebay_code(cats[0])
    } else {
        piratebay_cat_param(cats.drop_last()) + ","@ + piratebay_code(cats.last())
    }
}

/// The query parameters PirateBay is addressed with: the query under `q`,
/// and the joined category codes under `cat` unless no category was given.
pub open spec fn piratebay_query(req: SearchRequest) -> Seq<(Seq<char>, Seq<char>)> {
    if req.categories@.len() == 0 {
        seq![("q"@, req.query@)]
    } else {
        seq![("q"@, req.query@), ("cat"@, piratebay_cat_param(req.categories@))]
    }
}

/// A single entry of the PirateBay API response.  Counts and sizes are
/// transmitted as text.
#[derive(Debug)]
pub struct ResponseEntry {
    /// The unique identifier for the torrent.
    pub id: String,
    /// The name or title of the torrent.
    pub name: String,
    /// The content hash of the torrent, used in magnet links.
    pub info_hash: String,
    /// The number of leechers, as text.
    pub leechers: String,
    /// The number of seeders, as text.
    pub seeders: String,
    /// The number of files included in the torrent, as text.
    pub num_files: String,
    /// The size of the torrent in bytes, as text.
    pub size: String,
    /// The username of the uploader.
    pub username: String,
    /// The date when the torrent was added.
    pub added: String,
    /// The status of the torrent.
    pub status: String,
    /// The native category code of the torrent.
    pub category: String,
    /// The IMDb identifier associated with the torrent, if any.
    pub imdb: String,
}

/// The mathematical image of a [`ResponseEntry`].
#[verifier::ext_equal]
pub struct ResponseEntryView {
    pub id: Seq<char>,
    pub name: Seq<char>,
    pub info_hash: Seq<char>,
    pub leechers: Seq<char>,
    pub seeders: Seq<char>,
    pub num_files: Seq<char>,
    pub size: Seq<char>,
    pub username: Seq<char>,
    pub added: Seq<char>,
    pub status: Seq<char>,
    pub category: Seq<char>,
    pub imdb: Seq<char>,
}

impl View for ResponseEntry {
    type V = ResponseEntryView;

    open spec fn view(&self) -> ResponseEntryView {
        ResponseEntryView {
            id: self.id@,
            name: self.name@,
            info_hash: self.info_hash@,
            leechers: self.leechers@,
            seeders: self.seeders@,
            num_files: self.num_files@,
            size: self.size@,
            username: self.username@,
            added: self.added@,
            status: self.status@,
            category: self.category@,
            imdb: self.imdb@,
        }
    }
}

impl DeepView for ResponseEntry {
    type V = ResponseEntryView;

    open spec fn deep_view(&self) -> ResponseEntryView {
        self.view()
    }
}

/// Whether a response row is the sentinel PirateBay answers with when it
/// has no results: a zero id, the documented no-results name, or an
/// all-zero content hash.
pub open spec fn is_sentinel(e: ResponseEntryView) -> bool {
    e.id == "0"@ || e.name == "No results returned"@ || e.info_hash
        == "0000000000000000000000000000000000000000"@
}

/// Whether a response row is excluded from the parsed output: a sentinel
/// row, or a row one of whose numeric fields does not parse.
pub open spec fn entry_excluded(e: ResponseEntryView) -> bool {
    is_sentinel(e) || parse_unsigned_spec(e.seeders, u32::MAX as nat) is None
        || parse_unsigned_spec(e.leechers, u32::MAX as nat) is None || parse_unsigned_spec(
        e.size,
        u64::MAX as nat,
    ) is None
}

/// The torrents one response row yields: one torrent carrying the row's
/// fields with its numeric text parsed, or none at all when the row is
/// excluded.
pub open spec fn piratebay_entry_torrents(e: ResponseEntryView) -> Seq<TorrentView> {
    if is_sentinel(e) {
        Seq::empty()
    } else {
        match (
            parse_unsigned_spec(e.seeders, u32::MAX as nat),
            parse_unsigned_spec(e.leechers, u32::MAX as nat),
            parse_unsigned_spec(e.size, u64::MAX as nat),
        ) {
            (Some(se), Some(le), Some(sz)) => seq![
                TorrentView {
                    name: e.name,
                    magnet_link: "magnet:?xt=urn:btih:"@ + e.info_hash,
                    seeders: se as u32,
                    peers: le as u32,
                    size_bytes: sz as u64,
                    provider: "piratebay"@,
                },
            ],
            _ => Seq::empty(),
        }
    }
}

/// The torrents a whole row list yields, in order.
pub open spec fn piratebay_torrents(entries: Seq<ResponseEntryView>) -> Seq<TorrentView>
    decreases entries.len(),
{
    if entries.len() == 0 {
        Seq::empty()
    } else {
        piratebay_torrents(entries.drop_last()) + piratebay_entry_torrents(entries.last())
    }
}

/// How many rows of a list are excluded from the parsed output.
pub open spec fn excluded_count(entries: Seq<ResponseEntryView>) -> nat
    decreases entries.len(),
{
    if entries.len() == 0 {
        0
    } else {
        excluded_count(entries.drop_last()) + if entry_excluded(entries.last()) {
            1nat
        } else {
            0nat
        }
    }
}

/// A sentinel row never appears in the parsed output: removing it from the
/// response leaves the output unchanged, for any well-formed response.
pub proof fn lemma_sentinel_row_excluded(entries: Seq<ResponseEntryView>, i: int)
    requires
        0 <= i < entries.len(),
        is_sentinel(entries[i]),
    ensures
        piratebay_torrents(entries) == piratebay_torrents(entries.remove(i)),
    decreases entries.len(),
{
    if i == entries.len() - 1 {
        assert(entries.remove(i) =~= entries.drop_last());
        assert(piratebay_torrents(entries) =~= piratebay_torrents(entries.drop_last()));
    } else {
        assert(entries.drop_last()[i] == entries[i]);
        lemma_sentinel_row_excluded(entries.drop_last(), i);
        assert(entries.remove(i).drop_last() =~= entries.drop_last().remove(i));
        assert(entries.remove(i).last() == entries.last());
        assert(piratebay_torrents(entries.remove(i)) == piratebay_torrents(
            entries.drop_last().remove(i),
        ) + piratebay_entry_torrents(entries.last()));
    }
}

/// A row with an unparsable numeric field is excluded without failing the
/// whole parse: the output holds exactly one torrent for every row that is
/// neither a sentinel nor numerically malformed, so the output count falls
/// short of the row count by exactly the number of excluded rows.
pub proof fn lemma_excluded_rows_only_shrink_output(entries: Seq<ResponseEntryView>)
    ensures
        piratebay_torrents(entries).len() + excluded_count(entries) == entries.len(),
    decreases entries.len(),
{
    if entries.len() == 0 {
    } else {
        lemma_excluded_rows_only_shrink_output(entries.drop_last());
        if entry_excluded(entries.last()) {
            assert(piratebay_entry_torrents(entries.last()).len() == 0);
        } else {
            assert(piratebay_entry_torrents(entries.last()).len() == 1);
        }
    }
}

/// Every torrent the parse yields derives its magnet link from the row's
/// content hash under the fixed magnet template and is provenance-tagged
/// with this provider's literal name.
pub proof fn lemma_piratebay_provenance(entries: Seq<ResponseEntryView>)
    ensures
        crate::magnet_templated(piratebay_torrents(entries)),
        crate::provenance_tagged(piratebay_torrents(entries), "piratebay"@),
    decreases entries.len(),
{
    if entries.len() == 0 {
    } else {
        lemma_piratebay_provenance(entries.drop_last());
        let pre = piratebay_torrents(entries.drop_last());
        let last_part = piratebay_entry_torrents(entries.last());
        let whole = piratebay_torrents(entries);
        assert forall|k: int| 0 <= k < whole.len() implies ((#[trigger] whole[k]).provider
            == "piratebay"@ && exists|h: Seq<char>|
            whole[k].magnet_link == "magnet:?xt=urn:btih:"@ + h) by {
            if k < pre.len() {
                assert(whole[k] == pre[k]);
            } else {
                assert(whole[k] == last_part[k - pre.len()]);
                assert(last_part[k - pre.len()].magnet_link == "magnet:?xt=urn:btih:"@
                    + entries.last().info_hash);
            }
        }
    }
}

/// The image of one response row, when every one of its twelve text fields
/// is present and a string.
pub open spec fn spec_piratebay_row(t: JsonTree) -> Option<ResponseEntryView> {
    match (
        tree_text_member(t, "id"@),
        tree_text_member(t, "name"@),
        tree_text_member(t, "info_hash"@),
        tree_text_member(t, "leechers"@),
    ) {
        (Some(id), Some(name), Some(info_hash), Some(leechers)) => match (
            tree_text_member(t, "seeders"@),
            tree_text_member(t, "num_files"@),
            tree_text_member(t, "size"@),
            tree_text_member(t, "username"@),
        ) {
            (Some(seeders), Some(num_files), Some(size), Some(username)) => match (
                tree_text_member(t, "added"@),
                tree_text_member(t, "status"@),
                tree_text_member(t, "category"@),
                tree_text_member(t, "imdb"@),
            ) {
                (Some(added), Some(status), Some(category), Some(imdb)) => Some(
                    ResponseEntryView {
                        id,
                        name,
                        info_hash,
                        leechers,
                        seeders,
                        num_files,
                        size,
                        username,
                        added,
                        status,
                        category,
                        imdb,
                    },
                ),
                _ => None,
            },
            _ => None,
        },
        _ => None,
    }
}

/// Whether every element of the response array is a well-typed row.
pub open spec fn piratebay_rows_ok(elems: Seq<JsonTree>) -> bool {
    forall|i: int| 0 <= i < elems.len() ==> spec_piratebay_row(#[trigger] elems[i]) is Some
}

/// The rows of the response array, or nothing when one element is
/// ill-typed.
pub open spec fn spec_piratebay_rows(elems: Seq<JsonTree>) -> Option<Seq<ResponseEntryView>> {
    if piratebay_rows_ok(elems) {
        Some(Seq::new(elems.len(), |i: int| spec_piratebay_row(elems[i]).unwrap()))
    } else {
        None
    }
}

/// The rows a PirateBay response body decodes to: the well-typed rows of
/// its JSON array, or nothing when the body is not JSON of that shape.
pub open spec fn piratebay_rows_of(body: Seq<char>) -> Option<Seq<ResponseEntryView>> {
    match doc_of(body) {
        Some(JsonTree::Arr(elems)) => spec_piratebay_rows(elems),
        _ => None,
    }
}

/// Reads one row of the response array; nothing when a required field is
/// absent or not text.
fn decode_entry(v: &serde_json::Value) -> (r: Option<ResponseEntry>)
    ensures
        r matches Some(e) ==> spec_piratebay_row(value_view(*v)) == Some(e.deep_view()),
        r is None ==> spec_piratebay_row(value_view(*v)) is None,
{
    let id = json_str_field(v, "id")?;
    let name = json_str_field(v, "name")?;
    let info_hash = json_str_field(v, "info_hash")?;
    let leechers = json_str_field(v, "leechers")?;
    let seeders = json_str_field(v, "seeders")?;
    let num_files = json_str_field(v, "num_files")?;
    let size = json_str_field(v, "size")?;
    let username = json_str_field(v, "username")?;
    let added = json_str_field(v, "added")?;
    let status = json_str_field(v, "status")?;
    let category = json_str_field(v, "category")?;
    let imdb = json_str_field(v, "imdb")?;
    let entry = ResponseEntry {
        id,
        name,
        info_hash,
        leechers,
        seeders,
        num_files,
        size,
        username,
        added,
        status,
        category,
        imdb,
    };
    proof {
        assert(spec_piratebay_row(value_view(*v)).unwrap() =~= entry.deep_view());
    }
    Some(entry)
}

/// Reads a whole response body: the rows of its JSON array, each carrying
/// the twelve text fields — or the decoder's message.
fn read_rows(response: &str) -> (r: Result<Vec<ResponseEntry>, String>)
    ensures
        r matches Ok(es) ==> piratebay_rows_of(response@) == Some(es.deep_view()),
        r matches Err(m) ==> piratebay_rows_of(response@) is None,
{
    let doc = match json_from_str(response) {
        Ok(d) => d,
        Err(e) => {
            return Err(json_error_message(&e));
        },
    };
    let arr = match doc.as_array() {
        Some(a) => a,
        None => {
            return Err(String::from_str("response does not hold the expected entry array"));
        },
    };
    let ghost elems = value_view(doc)->Arr_0;
    let mut entries: Vec<ResponseEntry> = Vec::new();
    let mut i: usize = 0;
    while i < arr.len()
        invariant
            0 <= i <= arr@.len(),
            elems.len() == arr@.len(),
            forall|j: int| 0 <= j < arr@.len() ==> value_view(#[trigger] arr@[j]) == elems[j],
            doc_of(response@) == Some(value_view(doc)),
            value_view(doc) == JsonTree::Arr(elems),
            entries@.len() == i,
            forall|j: int|
                0 <= j < i ==> #[trigger] spec_piratebay_row(elems[j]) == Some(
                    entries.deep_view()[j],
                ),
        decreases arr@.len() - i,
    {
        match decode_entry(&arr[i]) {
            Some(e) => {
                let ghost ev = e.deep_view();
                entries.push(e);
                proof {
                    assert(value_view(arr@[i as int]) == elems[i as int]);
                    assert(entries.deep_view()[i as int] == ev);
                }
            },
            None => {
                proof {
                    assert(spec_piratebay_row(elems[i as int]) is None);
                }
                return Err(String::from_str("response does not hold the expected entry array"));
            },
        }
        i = i + 1;
    }
    proof {
        assert(piratebay_rows_ok(elems));
        assert(spec_piratebay_rows(elems) matches Some(es) && es =~= entries.deep_view());
    }
    Ok(entries)
}

/// Turns decoded response rows into torrents: sentinel rows and rows with
/// unparsable numeric text are dropped, every other row yields one torrent,
/// in order.
pub fn torrents_from_entries(entries: &Vec<ResponseEntry>) -> (ts: Vec<Torrent>)
    ensures
        ts.deep_view() == piratebay_torrents(entries.deep_view()),
{
    let mut ts: Vec<Torrent> = Vec::new();
    let mut i: usize = 0;
    proof {
        assert(ts.deep_view() =~= piratebay_torrents(entries.deep_view().take(0)));
    }
    while i < entries.len()
        invariant
            0 <= i <= entries@.len(),
            ts.deep_view() == piratebay_torrents(entries.deep_view().take(i as int)),
        decreases entries@.len() - i,
    {
        let entry = &entries[i];
        let ghost old_ts = ts.deep_view();
        let sentinel = str_eq(entry.id.as_str(), "0") || str_eq(
            entry.name.as_str(),
            "No results returned",
        ) || str_eq(entry.info_hash.as_str(), "0000000000000000000000000000000000000000");
        if !sentinel {
            let seeders = parse_u32(entry.seeders.as_str());
            let leechers = parse_u32(entry.leechers.as_str());
            let size = parse_u64(entry.size.as_str());
            match (seeders, leechers, size) {
                (Some(se), Some(le), Some(sz)) => {
                    let mut magnet = String::from_str("magnet:?xt=urn:btih:");
                    magnet.append(entry.info_hash.as_str());
                    let torrent = Torrent {
                        name: entry.name.clone(),
                        magnet_link: magnet,
                        seeders: se,
                        peers: le,
                        size_bytes: sz,
                        provider: String::from_str("piratebay"),
                    };
                    ts.push(torrent);
                    proof {
                        assert(ts.deep_view() =~= old_ts.push(torrent@));
                    }
                },
                _ => {},
            }
        }
        proof {
            assert(entries.deep_view().take(i + 1).drop_last() =~= entries.deep_view().take(
                i as int,
            ));
            assert(entries.deep_view().take(i + 1).last() == entries@[i as int].deep_view());
            assert(ts.deep_view() =~= piratebay_torrents(entries.deep_view().take(i + 1)));
        }
        i = i + 1;
    }
    proof {
        assert(entries.deep_view().take(entries@.len() as int) =~= entries.deep_view());
    }
    ts
}

impl PirateBay {
    /// The provider's registry key: its API URL.
    pub closed spec fn spec_id(&self) -> Seq<char> {
        self.api_url@
    }

    /// Creates a PirateBay provider addressing the public PirateBay API.
    pub fn new() -> (p: PirateBay)
        ensures
            p.spec_id() == "https://apibay.org/q.php"@,
    {
        PirateBay { api_url: String::from_str("https://apibay.org/q.php") }
    }

    /// Creates a PirateBay provider addressing a custom API URL.
    pub fn with_url(url: String) -> (p: PirateBay)
        ensures
            p.spec_id() == url@,
    {
        PirateBay { api_url: url }
    }

    /// Returns the unique identifier of this provider: its API URL.
    pub fn id(&self) -> (r: String)
        ensures
            r@ == self.spec_id(),
    {
        self.api_url.clone()
    }

    /// The wire request this provider sends: a GET of the API URL with the
    /// query parameters of [`piratebay_query`].
    pub open spec fn spec_build_request(&self, request: SearchRequest) -> WireRequestView {
        WireRequestView {
            method: HttpMethod::Get,
            url: self.spec_id(),
            query: piratebay_query(request),
            headers: Seq::empty(),
            body: None,
        }
    }

    /// Builds the wire request that queries the PirateBay API.
    pub fn build_request(&self, request: &SearchRequest) -> (w: WireRequest)
        ensures
            w@ == self.spec_build_request(*request),
    {
        let mut query: Vec<(String, String)> = Vec::new();
        query.push((String::from_str("q"), request.query.clone()));
        if request.categories.len() > 0 {
            let mut cat = String::new();
            let mut i: usize = 0;
            while i < request.categories.len()
                invariant
                    0 <= i <= request.categories@.len(),
                    cat@ == piratebay_cat_param(request.categories@.take(i as int)),
                decreases request.categories@.len() - i,
            {
                if i > 0 {
                    cat.append(",");
                }
                cat.append(piratebay_code_exec(request.categories[i]));
                proof {
                    assert(request.categories@.take(i + 1).drop_last() =~= request.categories@.take(
                        i as int,
                    ));
                    assert(request.categories@.take(i + 1).last()
                        == request.categories@[i as int]);
                    assert(cat@ =~= piratebay_cat_param(request.categories@.take(i + 1)));
                }
                i = i + 1;
            }
            proof {
                assert(request.categories@.take(request.categories@.len() as int)
                    =~= request.categories@);
            }
            query.push((String::from_str("cat"), cat));
        }
        let w = WireRequest {
            method: HttpMethod::Get,
            url: self.api_url.clone(),
            query,
            headers: Vec::new(),
            body: None,
        };
        proof {
            assert(w@.query =~= piratebay_query(*request));
            assert(w@.headers =~= Seq::<(Seq<char>, Seq<char>)>::empty());
        }
        w
    }

    /// Parses a PirateBay response body into torrents.  The parse fails,
    /// with a data-parse error, exactly when the body does not decode as a
    /// JSON array of well-formed rows; otherwise it returns exactly the
    /// torrents of the decoded rows, in order — excluded rows dropped
    /// silently, and a response holding only the no-results sentinel a
    /// success with no results.
    pub fn parse_response(&self, response: &str) -> (r: Result<Vec<Torrent>, ClientError>)
        ensures
            piratebay_rows_of(response@) matches Some(es) ==> (r matches Ok(ts) && ts.deep_view()
                == piratebay_torrents(es)),
            piratebay_rows_of(response@) is None ==> (r matches Err(e) && e is DataParseError),
            r matches Ok(ts) ==> crate::magnet_templated(ts.deep_view())
                && crate::provenance_tagged(ts.deep_view(), "piratebay"@),
    {
        let entries = match read_rows(response) {
            Ok(v) => v,
            Err(m) => {
                return Err(ClientError::DataParseError(m));
            },
        };
        let ts = torrents_from_entries(&entries);
        proof {
            let es = entries.deep_view();
            assert(ts.deep_view() == piratebay_torrents(es));
            lemma_piratebay_provenance(es);
        }
        Ok(ts)
    }
}

impl Default for PirateBay {
    /// A PirateBay provider addressing the public PirateBay API.
    fn default() -> (p: PirateBay)
        ensures
            p.spec_id() == "https://apibay.org/q.php"@,
    {
        PirateBay::new()
    }
}

} // verus!
