//! The YTS search provider.  YTS is queried with a GET request carrying the
//! query and, when one of the categories it recognizes is requested, a
//! single genre; its response nests torrents inside movies, and transmits
//! each torrent's size as human-readable text such as `1.5GB`, which is
//! converted to bytes with decimal SI multipliers.

use vstd::prelude::*;
use vstd::string::StrSliceExecFns;
use vstd::string::StringExecFns;

use crate::Category;
use crate::SearchRequest;
use crate::Torrent;
use crate::TorrentView;
use crate::errors::ClientError;
use crate::json::JsonTree;
use crate::json::doc_of;
use crate::json::json_error_message;
use crate::json::json_from_str;
use crate::json::json_get;
use crate::json::json_str_field;
use crate::json::json_u32_field;
use crate::json::tree_member;
use crate::json::tree_text_member;
use crate::json::tree_u32_member;
use crate::json::value_view;
use crate::text::all_digits;
use crate::text::check_all_digits;
use crate::text::digits_u128;
use crate::text::digits_value;
use crate::text::frac_digits_value;
use crate::text::frac_value;
use crate::text::lemma_frac_value_lt_pow10;
use crate::text::lemma_pow10_20;
use crate::text::lemma_pow10_29;
use crate::text::lemma_pow10_adds;
use crate::text::lemma_pow10_increases;
use crate::text::lemma_pow10_pos;
use crate::text::pow10;
use crate::text::pow10_u64;
use crate::wire::HttpMethod;
use crate::wire::WireRequest;
use crate::wire::WireRequestView;

verus! {

/// The YTS provider: queries and parses data from the YTS API.
#[derive(Debug)]
pub struct Yts {
    api_url: String,
}

/// The genre YTS is asked for: the one of the first requested category it
/// recognizes.  YTS only understands movies and anime; every other
/// category is ignored.
pub open spec fn yts_genre(cats: Seq<Category>) -> Option<Seq<char>>
    decreases cats.len(),
{
    if cats.len() == 0 {
        None
    } else if cats[0] == Category::Movies {
        Some("movie"@)
    } else if cats[0] == Category::Anime {
        Some("anime"@)
    } else {
        yts_genre(cats.drop_first())
    }
}

/// The query parameters YTS is addressed with: the query under
/// `query_term`, and the genre under `genre` when one applies.
pub open spec fn yts_query(req: SearchRequest) -> Seq<(Seq<char>, Seq<char>)> {
    match yts_genre(req.categories@) {
        None => seq![("query_term"@, req.query@)],
        Some(g) => seq![("query_term"@, req.query@), ("genre"@, g)],
    }
}

/// Whether a size string ends in the given unit letter (in either case)
/// followed by a `b` (in either case).
pub open spec fn has_unit_suffix(s: Seq<char>, lower: char, upper: char) -> bool {
    s.len() >= 2 && (s[s.len() - 2] == lower || s[s.len() - 2] == upper) && (s[s.len() - 1] == 'b'
        || s[s.len() - 1] == 'B')
}

/// The index of the first decimal point of a number string, or -1.
pub open spec fn find_dot(s: Seq<char>) -> int
    decreases s.len(),
{
    if s.len() == 0 {
        -1
    } else if s[0] == '.' {
        0
    } else if find_dot(s.drop_first()) == -1 {
        -1
    } else {
        find_dot(s.drop_first()) + 1
    }
}

/// The digits before the first decimal point.
pub open spec fn int_digits(s: Seq<char>) -> Seq<char> {
    if find_dot(s) == -1 {
        s
    } else {
        s.take(find_dot(s))
    }
}

/// The digits after the first decimal point.
pub open spec fn frac_digits(s: Seq<char>) -> Seq<char> {
    if find_dot(s) == -1 {
        Seq::empty()
    } else {
        s.skip(find_dot(s) + 1)
    }
}

/// Whether a string is a plain unsigned decimal number: digits with at most
/// one decimal point among them, and at least one digit.
pub open spec fn valid_number(s: Seq<char>) -> bool {
    all_digits(int_digits(s)) && all_digits(frac_digits(s)) && int_digits(s).len() + frac_digits(
        s,
    ).len() >= 1
}

/// The byte count a number of whole units worth ten to `cap` bytes stands
/// for, its fraction truncated to whole bytes.
pub open spec fn number_bytes(s: Seq<char>, cap: nat) -> nat {
    digits_value(int_digits(s)) * pow10(cap) + frac_value(frac_digits(s), cap)
}

/// A byte count clamped to the 64-bit range.
pub open spec fn clamp_u64(n: nat) -> u64 {
    if n > u64::MAX {
        u64::MAX
    } else {
        n as u64
    }
}

/// The bytes a YTS size string stands for: a number of gigabytes or
/// megabytes under decimal SI multipliers (one gigabyte is a thousand
/// million bytes), clamped to the 64-bit range.  A string with an
/// unrecognized unit or a malformed number stands for zero bytes rather
/// than failing.
pub open spec fn yts_size_bytes(s: Seq<char>) -> u64 {
    if has_unit_suffix(s, 'g', 'G') {
        if valid_number(s.take(s.len() - 2)) {
            clamp_u64(number_bytes(s.take(s.len() - 2), 9))
        } else {
            0
        }
    } else if has_unit_suffix(s, 'm', 'M') {
        if valid_number(s.take(s.len() - 2)) {
            clamp_u64(number_bytes(s.take(s.len() - 2), 6))
        } else {
            0
        }
    } else {
        0
    }
}

/// `find_dot` names the first decimal point.
proof fn lemma_find_dot_at(s: Seq<char>, d: int)
    requires
        0 <= d < s.len(),
        s[d] == '.',
        forall|j: int| 0 <= j < d ==> s[j] != '.',
    ensures
        find_dot(s) == d,
    decreases d,
{
    if d == 0 {
    } else {
        assert(forall|j: int| 0 <= j < d - 1 ==> #[trigger] s.drop_first()[j] == s[j + 1]);
        lemma_find_dot_at(s.drop_first(), d - 1);
    }
}

/// `find_dot` finds nothing in a string without a decimal point.
proof fn lemma_find_dot_none(s: Seq<char>)
    requires
        forall|j: int| 0 <= j < s.len() ==> s[j] != '.',
    ensures
        find_dot(s) == -1,
    decreases s.len(),
{
    if s.len() == 0 {
    } else {
        assert(forall|j: int|
            0 <= j < s.drop_first().len() ==> #[trigger] s.drop_first()[j] == s[j + 1]);
        lemma_find_dot_none(s.drop_first());
    }
}

/// A torrent of one movie of the YTS API response.
#[derive(Debug)]
pub struct YtsTorrent {
    /// The content hash of the torrent, used in magnet links.
    pub hash: String,
    /// The number of seeders for the torrent.
    pub seeds: u32,
    /// The number of leechers for the torrent.
    pub peers: u32,
    /// The size of the torrent as human-readable text, such as `700MB`.
    pub size: String,
}

/// The mathematical image of a [`YtsTorrent`].
#[verifier::ext_equal]
pub struct YtsTorrentView {
    pub hash: Seq<char>,
    pub seeds: u32,
    pub peers: u32,
    pub size: Seq<char>,
}

impl View for YtsTorrent {
    type V = YtsTorrentView;

    open spec fn view(&self) -> YtsTorrentView {
        YtsTorrentView { hash: self.hash@, seeds: self.seeds, peers: self.peers, size: self.size@ }
    }
}

impl DeepView for YtsTorrent {
    type V = YtsTorrentView;

    open spec fn deep_view(&self) -> YtsTorrentView {
        self.view()
    }
}

/// A single movie of the YTS API response.
#[derive(Debug)]
pub struct YtsMovie {
    /// The title of the movie.
    pub title: String,
    /// The available torrents of the movie.
    pub torrents: Vec<YtsTorrent>,
}

/// The mathematical image of a [`YtsMovie`].
#[verifier::ext_equal]
pub struct YtsMovieView {
    pub title: Seq<char>,
    pub torrents: Seq<YtsTorrentView>,
}

impl View for YtsMovie {
    type V = YtsMovieView;

    open spec fn view(&self) -> YtsMovieView {
        YtsMovieView { title: self.title@, torrents: self.torrents.deep_view() }
    }
}

impl DeepView for YtsMovie {
    type V = YtsMovieView;

    open spec fn deep_view(&self) -> YtsMovieView {
        self.view()
    }
}

/// The torrent one YTS response torrent yields for the movie it belongs
/// to: the movie's title as the name, the magnet link derived from the
/// hash, and the size text converted to bytes.
pub open spec fn yts_one_torrent(title: Seq<char>, t: YtsTorrentView) -> TorrentView {
    TorrentView {
        name: title,
        magnet_link: "magnet:?xt=urn:btih:"@ + t.hash,
        seeders: t.seeds,
        peers: t.peers,
        size_bytes: yts_size_bytes(t.size),
        provider: "yts"@,
    }
}

/// The torrents one movie yields, in order.
pub open spec fn yts_movie_torrents(title: Seq<char>, ts: Seq<YtsTorrentView>) -> Seq<TorrentView>
    decreases ts.len(),
{
    if ts.len() == 0 {
        Seq::empty()
    } else {
        yts_movie_torrents(title, ts.drop_last()).push(yts_one_torrent(title, ts.last()))
    }
}

/// The torrents a whole movie list yields, in order.
pub open spec fn yts_torrents(movies: Seq<YtsMovieView>) -> Seq<TorrentView>
    decreases movies.len(),
{
    if movies.len() == 0 {
        Seq::empty()
    } else {
        yts_torrents(movies.drop_last()) + yts_movie_torrents(
            movies.last().title,
            movies.last().torrents,
        )
    }
}

/// Every torrent one movie yields carries a magnet link under the fixed
/// template and the `yts` provenance tag.
proof fn lemma_yts_movie_provenance(title: Seq<char>, ts: Seq<YtsTorrentView>)
    ensures
        crate::magnet_templated(yts_movie_torrents(title, ts)),
        crate::provenance_tagged(yts_movie_torrents(title, ts), "yts"@),
    decreases ts.len(),
{
    if ts.len() == 0 {
    } else {
        lemma_yts_movie_provenance(title, ts.drop_last());
        let pre = yts_movie_torrents(title, ts.drop_last());
        let whole = yts_movie_torrents(title, ts);
        assert forall|k: int| 0 <= k < whole.len() implies ((#[trigger] whole[k]).provider == "yts"@
            && exists|h: Seq<char>| whole[k].magnet_link == "magnet:?xt=urn:btih:"@ + h) by {
            if k < pre.len() {
                assert(whole[k] == pre[k]);
            } else {
                assert(whole[k] == yts_one_torrent(title, ts.last()));
                assert(whole[k].magnet_link == "magnet:?xt=urn:btih:"@ + ts.last().hash);
            }
        }
    }
}

/// Every torrent the parse yields derives its magnet link from a content
/// hash under the fixed magnet template and is provenance-tagged with this
/// provider's literal name.
pub proof fn lemma_yts_provenance(movies: Seq<YtsMovieView>)
    ensures
        crate::magnet_templated(yts_torrents(movies)),
        crate::provenance_tagged(yts_torrents(movies), "yts"@),
    decreases movies.len(),
{
    if movies.len() == 0 {
    } else {
        lemma_yts_provenance(movies.drop_last());
        lemma_yts_movie_provenance(movies.last().title, movies.last().torrents);
        let pre = yts_torrents(movies.drop_last());
        let last_part = yts_movie_torrents(movies.last().title, movies.last().torrents);
        let whole = yts_torrents(movies);
        assert forall|k: int| 0 <= k < whole.len() implies ((#[trigger] whole[k]).provider == "yts"@
            && exists|h: Seq<char>| whole[k].magnet_link == "magnet:?xt=urn:btih:"@ + h) by {
            if k < pre.len() {
                assert(whole[k] == pre[k]);
            } else {
                assert(whole[k] == last_part[k - pre.len()]);
            }
        }
    }
}

impl YtsTorrent {
    /// Converts the size text of this torrent into bytes.
    pub fn size_bytes(&self) -> (r: u64)
        ensures
            r == yts_size_bytes(self.size@),
    {
        let s = self.size.as_str();
        let len = s.unicode_len();
        if len < 2 {
            return 0;
        }
        let c1 = s.get_char(len - 2);
        let c2 = s.get_char(len - 1);
        let unit_b = c2 == 'b' || c2 == 'B';
        let cap: u64 = if unit_b && (c1 == 'g' || c1 == 'G') {
            9
        } else if unit_b && (c1 == 'm' || c1 == 'M') {
            6
        } else {
            return 0;
        };
        let num = s.substring_char(0, len - 2);
        proof {
            assert(num@ =~= s@.take(s@.len() - 2));
        }
        let nlen = num.unicode_len();
        // Find the first decimal point, if any.
        let mut dot: usize = nlen;
        let mut i: usize = 0;
        while i < nlen && dot == nlen
            invariant
                0 <= i <= nlen,
                nlen == num@.len(),
                dot == nlen || (dot < nlen && i == dot + 1 && num@[dot as int] == '.'),
                forall|j: int| 0 <= j < i && j != dot ==> num@[j] != '.',
            decreases nlen - i,
        {
            if num.get_char(i) == '.' {
                dot = i;
            }
            i = i + 1;
        }
        proof {
            if dot == nlen {
                lemma_find_dot_none(num@);
            } else {
                lemma_find_dot_at(num@, dot as int);
            }
        }
        // Split into integer and fraction digits and validate them.
        let ipart: &str = if dot < nlen {
            num.substring_char(0, dot)
        } else {
            num
        };
        let fpart: &str = if dot < nlen {
            num.substring_char(dot + 1, nlen)
        } else {
            num.substring_char(nlen, nlen)
        };
        proof {
            assert(ipart@ =~= int_digits(num@));
            assert(fpart@ =~= frac_digits(num@));
        }
        if !check_all_digits(ipart) || !check_all_digits(fpart) {
            return 0;
        }
        if ipart.unicode_len() == 0 && fpart.unicode_len() == 0 {
            return 0;
        }
        // The number is well-formed; compute its byte count, clamped.
        let int_val: u128 = match digits_u128(ipart) {
            Some(v) => v,
            None => {
                proof {
                    lemma_pow10_pos(cap as nat);
                    assert(digits_value(ipart@) * pow10(cap as nat) >= digits_value(ipart@))
                        by (nonlinear_arith)
                        requires
                            pow10(cap as nat) >= 1,
                    ;
                }
                return u64::MAX;
            },
        };
        let mult = pow10_u64(cap);
        let frac = frac_digits_value(fpart, cap);
        proof {
            lemma_pow10_adds(20, cap as nat);
            lemma_pow10_increases(cap as nat, 9);
            lemma_pow10_adds(20, 9);
            lemma_pow10_20();
            lemma_pow10_29();
            assert(int_val * (mult as u128) <= pow10(20) * pow10(cap as nat)) by (nonlinear_arith)
                requires
                    0 <= int_val <= pow10(20),
                    0 <= mult == pow10(cap as nat),
            ;
            assert(pow10(20) * pow10(cap as nat) <= pow10(20) * pow10(9)) by (nonlinear_arith)
                requires
                    pow10(cap as nat) <= pow10(9),
                    pow10(20) >= 0,
            ;
            lemma_frac_value_lt_pow10(fpart@, cap as nat);
        }
        let total: u128 = int_val * (mult as u128) + (frac as u128);
        if total > u64::MAX as u128 {
            u64::MAX
        } else {
            total as u64
        }
    }
}

/// The image of one torrent of a movie, when every required field is
/// present and well-typed.
pub open spec fn spec_yts_torrent(t: JsonTree) -> Option<YtsTorrentView> {
    match (
        tree_text_member(t, "hash"@),
        tree_u32_member(t, "seeds"@),
        tree_u32_member(t, "peers"@),
        tree_text_member(t, "size"@),
    ) {
        (Some(hash), Some(seeds), Some(peers), Some(size)) => Some(
            YtsTorrentView { hash, seeds, peers, size },
        ),
        _ => None,
    }
}

/// Whether every element of a `torrents` array is a well-typed torrent.
pub open spec fn yts_torrent_list_ok(elems: Seq<JsonTree>) -> bool {
    forall|i: int| 0 <= i < elems.len() ==> spec_yts_torrent(#[trigger] elems[i]) is Some
}

/// The torrents of a `torrents` array, or nothing when one element is
/// ill-typed.
pub open spec fn spec_yts_torrent_list(elems: Seq<JsonTree>) -> Option<Seq<YtsTorrentView>> {
    if yts_torrent_list_ok(elems) {
        Some(Seq::new(elems.len(), |i: int| spec_yts_torrent(elems[i]).unwrap()))
    } else {
        None
    }
}

/// The image of one movie of the `movies` array, when its title and its
/// torrents are present and well-typed.
pub open spec fn spec_yts_movie(t: JsonTree) -> Option<YtsMovieView> {
    match (tree_text_member(t, "title"@), tree_member(t, "torrents"@)) {
        (Some(title), Some(JsonTree::Arr(elems))) => match spec_yts_torrent_list(elems) {
            Some(torrents) => Some(YtsMovieView { title, torrents }),
            None => None,
        },
        _ => None,
    }
}

/// Whether every element of a `movies` array is a well-typed movie.
pub open spec fn yts_movie_list_ok(elems: Seq<JsonTree>) -> bool {
    forall|i: int| 0 <= i < elems.len() ==> spec_yts_movie(#[trigger] elems[i]) is Some
}

/// The movies of a `movies` array, or nothing when one element is
/// ill-typed.
pub open spec fn spec_yts_movie_list(elems: Seq<JsonTree>) -> Option<Seq<YtsMovieView>> {
    if yts_movie_list_ok(elems) {
        Some(Seq::new(elems.len(), |i: int| spec_yts_movie(elems[i]).unwrap()))
    } else {
        None
    }
}

/// The movies a YTS response body decodes to: the well-typed movies of the
/// `movies` array inside the `data` object of its JSON document — zero
/// movies when that field is absent or null — or nothing when the body is
/// not JSON of that shape.
pub open spec fn yts_movies_of(body: Seq<char>) -> Option<Seq<YtsMovieView>> {
    match doc_of(body) {
        Some(doc) => match tree_member(doc, "data"@) {
            Some(data) => match tree_member(data, "movies"@) {
                None => Some(Seq::<YtsMovieView>::empty()),
                Some(JsonTree::Null) => Some(Seq::<YtsMovieView>::empty()),
                Some(JsonTree::Arr(elems)) => spec_yts_movie_list(elems),
                Some(_) => None,
            },
            None => None,
        },
        None => None,
    }
}

/// Reads one torrent of a movie; nothing when a required field is absent
/// or of the wrong kind.
fn decode_torrent(v: &serde_json::Value) -> (r: Option<YtsTorrent>)
    ensures
        r matches Some(t) ==> spec_yts_torrent(value_view(*v)) == Some(t.deep_view()),
        r is None ==> spec_yts_torrent(value_view(*v)) is None,
{
    let hash = json_str_field(v, "hash")?;
    let seeds = json_u32_field(v, "seeds")?;
    let peers = json_u32_field(v, "peers")?;
    let size = json_str_field(v, "size")?;
    let torrent = YtsTorrent { hash, seeds, peers, size };
    proof {
        assert(spec_yts_torrent(value_view(*v)).unwrap() =~= torrent.deep_view());
    }
    Some(torrent)
}

/// Reads one movie of the `movies` array.
fn decode_movie(v: &serde_json::Value) -> (r: Option<YtsMovie>)
    ensures
        r matches Some(m) ==> spec_yts_movie(value_view(*v)) == Some(m.deep_view()),
        r is None ==> spec_yts_movie(value_view(*v)) is None,
{
    let title = json_str_field(v, "title")?;
    let member = match json_get(v, "torrents") {
        Some(f) => f,
        None => {
            return None;
        },
    };
    let arr = match member.as_array() {
        Some(a) => a,
        None => {
            return None;
        },
    };
    let ghost elems = value_view(*member)->Arr_0;
    let mut torrents: Vec<YtsTorrent> = Vec::new();
    let mut i: usize = 0;
    while i < arr.len()
        invariant
            0 <= i <= arr@.len(),
            elems.len() == arr@.len(),
            forall|j: int| 0 <= j < arr@.len() ==> value_view(#[trigger] arr@[j]) == elems[j],
            tree_member(value_view(*v), "torrents"@) == Some(JsonTree::Arr(elems)),
            torrents@.len() == i,
            forall|j: int|
                0 <= j < i ==> #[trigger] spec_yts_torrent(elems[j]) == Some(
                    torrents.deep_view()[j],
                ),
        decreases arr@.len() - i,
    {
        match decode_torrent(&arr[i]) {
            Some(t) => {
                let ghost tv = t.deep_view();
                torrents.push(t);
                proof {
                    assert(value_view(arr@[i as int]) == elems[i as int]);
                    assert(torrents.deep_view()[i as int] == tv);
                }
            },
            None => {
                proof {
                    assert(spec_yts_torrent(elems[i as int]) is None);
                }
                return None;
            },
        }
        i = i + 1;
    }
    proof {
        assert(yts_torrent_list_ok(elems));
        assert(spec_yts_torrent_list(elems) matches Some(ts) && ts =~= torrents.deep_view());
    }
    let movie = YtsMovie { title, torrents };
    proof {
        assert(spec_yts_movie(value_view(*v)).unwrap() =~= movie.deep_view());
    }
    Some(movie)
}

/// Reads a whole response body: the movies of the `movies` array inside the
/// `data` object of its JSON document — zero movies when that field is
/// absent or null — or the decoder's message.
fn read_movies(response: &str) -> (r: Result<Vec<YtsMovie>, String>)
    ensures
        r matches Ok(ms) ==> yts_movies_of(response@) == Some(ms.deep_view()),
        r matches Err(m) ==> yts_movies_of(response@) is None,
{
    let doc = match json_from_str(response) {
        Ok(d) => d,
        Err(e) => {
            return Err(json_error_message(&e));
        },
    };
    let data = match json_get(&doc, "data") {
        Some(d) => d,
        None => {
            return Err(String::from_str("response does not hold the expected movie data"));
        },
    };
    let member = match json_get(data, "movies") {
        Some(f) => f,
        None => {
            let none: Vec<YtsMovie> = Vec::new();
            proof {
                assert(none.deep_view() =~= Seq::<YtsMovieView>::empty());
            }
            return Ok(none);
        },
    };
    if member.is_null() {
        let none: Vec<YtsMovie> = Vec::new();
        proof {
            assert(none.deep_view() =~= Seq::<YtsMovieView>::empty());
        }
        return Ok(none);
    }
    let arr = match member.as_array() {
        Some(a) => a,
        None => {
            return Err(String::from_str("response does not hold the expected movie data"));
        },
    };
    let ghost elems = value_view(*member)->Arr_0;
    let mut movies: Vec<YtsMovie> = Vec::new();
    let mut i: usize = 0;
    while i < arr.len()
        invariant
            0 <= i <= arr@.len(),
            elems.len() == arr@.len(),
            forall|j: int| 0 <= j < arr@.len() ==> value_view(#[trigger] arr@[j]) == elems[j],
            doc_of(response@) == Some(value_view(doc)),
            tree_member(value_view(doc), "data"@) == Some(value_view(*data)),
            tree_member(value_view(*data), "movies"@) == Some(JsonTree::Arr(elems)),
            movies@.len() == i,
            forall|j: int|
                0 <= j < i ==> #[trigger] spec_yts_movie(elems[j]) == Some(
                    movies.deep_view()[j],
                ),
        decreases arr@.len() - i,
    {
        match decode_movie(&arr[i]) {
            Some(m) => {
                let ghost mv = m.deep_view();
                movies.push(m);
                proof {
                    assert(value_view(arr@[i as int]) == elems[i as int]);
                    assert(movies.deep_view()[i as int] == mv);
                }
            },
            None => {
                proof {
                    assert(spec_yts_movie(elems[i as int]) is None);
                }
                return Err(String::from_str("response does not hold the expected movie data"));
            },
        }
        i = i + 1;
    }
    proof {
        assert(yts_movie_list_ok(elems));
        assert(spec_yts_movie_list(elems) matches Some(ms) && ms =~= movies.deep_view());
    }
    Ok(movies)
}

/// Turns decoded movies into torrents: every torrent of every movie, in
/// order, each named after its movie.
pub fn torrents_from_movies(movies: &Vec<YtsMovie>) -> (ts: Vec<Torrent>)
    ensures
        ts.deep_view() == yts_torrents(movies.deep_view()),
{
    let mut ts: Vec<Torrent> = Vec::new();
    let mut i: usize = 0;
    proof {
        assert(ts.deep_view() =~= yts_torrents(movies.deep_view().take(0)));
    }
    while i < movies.len()
        invariant
            0 <= i <= movies@.len(),
            ts.deep_view() == yts_torrents(movies.deep_view().take(i as int)),
        decreases movies@.len() - i,
    {
        let movie = &movies[i];
        let ghost movie_start = ts.deep_view();
        let mut j: usize = 0;
        proof {
            assert(movie.torrents.deep_view().take(0) =~= Seq::<YtsTorrentView>::empty());
            assert(ts.deep_view() =~= movie_start + yts_movie_torrents(
                movie.title@,
                movie.torrents.deep_view().take(0),
            ));
        }
        while j < movie.torrents.len()
            invariant
                0 <= j <= movie.torrents@.len(),
                ts.deep_view() == movie_start + yts_movie_torrents(
                    movie.title@,
                    movie.torrents.deep_view().take(j as int),
                ),
            decreases movie.torrents@.len() - j,
        {
            let t = &movie.torrents[j];
            let mut magnet = String::from_str("magnet:?xt=urn:btih:");
            magnet.append(t.hash.as_str());
            let torrent = Torrent {
                name: movie.title.clone(),
                magnet_link: magnet,
                seeders: t.seeds,
                peers: t.peers,
                size_bytes: t.size_bytes(),
                provider: String::from_str("yts"),
            };
            let ghost old_ts = ts.deep_view();
            ts.push(torrent);
            proof {
                assert(ts.deep_view() =~= old_ts.push(torrent@));
                assert(movie.torrents.deep_view().take(j + 1).drop_last()
                    =~= movie.torrents.deep_view().take(j as int));
                assert(movie.torrents.deep_view().take(j + 1).last() == movie.torrents@[
                    j as int
                ].deep_view());
                assert(torrent@ =~= yts_one_torrent(
                    movie.title@,
                    movie.torrents@[j as int].deep_view(),
                ));
                assert(ts.deep_view() =~= movie_start + yts_movie_torrents(
                    movie.title@,
                    movie.torrents.deep_view().take(j + 1),
                ));
            }
            j = j + 1;
        }
        proof {
            assert(movie.torrents.deep_view().take(movie.torrents@.len() as int)
                =~= movie.torrents.deep_view());
            assert(movies.deep_view().take(i + 1).drop_last() =~= movies.deep_view().take(i as int));
            assert(movies.deep_view().take(i + 1).last() == movies@[i as int].deep_view());
            assert(ts.deep_view() =~= yts_torrents(movies.deep_view().take(i + 1)));
        }
        i = i + 1;
    }
    proof {
        assert(movies.deep_view().take(movies@.len() as int) =~= movies.deep_view());
    }
    ts
}

impl Yts {
    /// The provider's registry key: its API URL.
    pub closed spec fn spec_id(&self) -> Seq<char> {
        self.api_url@
    }

    /// Creates a YTS provider addressing the public YTS API.
    pub fn new() -> (p: Yts)
        ensures
            p.spec_id() == "https://yts.mx/api/v2/list_movies.json"@,
    {
        Yts { api_url: String::from_str("https://yts.mx/api/v2/list_movies.json") }
    }

    /// Creates a YTS provider addressing a custom API URL.
    pub fn with_url(url: String) -> (p: Yts)
        ensures
            p.spec_id() == url@,
    {
        Yts { api_url: url }
    }

    /// Returns the unique identifier of this provider: its API URL.
    pub fn id(&self) -> (r: String)
        ensures
            r@ == self.spec_id(),
    {
        self.api_url.clone()
    }

    /// The wire request this provider sends: a GET of the API URL with the
    /// query parameters of [`yts_query`].
    pub open spec fn spec_build_request(&self, request: SearchRequest) -> WireRequestView {
        WireRequestView {
            method: HttpMethod::Get,
            url: self.spec_id(),
            query: yts_query(request),
            headers: Seq::empty(),
            body: None,
        }
    }

    /// Builds the wire request that queries the YTS API.
    pub fn build_request(&self, request: &SearchRequest) -> (w: WireRequest)
        ensures
            w@ == self.spec_build_request(*request),
    {
        let mut query: Vec<(String, String)> = Vec::new();
        query.push((String::from_str("query_term"), request.query.clone()));
        let mut i: usize = 0;
        proof {
            assert(request.categories@.skip(0) =~= request.categories@);
        }
        while i < request.categories.len()
            invariant
                0 <= i <= request.categories@.len(),
                yts_genre(request.categories@) == yts_genre(request.categories@.skip(i as int)),
                query@.len() == 1,
                query@[0].0@ == "query_term"@,
                query@[0].1@ == request.query@,
            decreases request.categories@.len() - i,
        {
            let genre_match: Option<&str> = match request.categories[i] {
                Category::Movies => Some("movie"),
                Category::Anime => Some("anime"),
                _ => None,
            };
            proof {
                assert(request.categories@.skip(i as int)[0] == request.categories@[i as int]);
                assert(request.categories@.skip(i as int).drop_first() =~= request.categories@.skip(
                    i + 1,
                ));
            }
            if let Some(genre) = genre_match {
                query.push((String::from_str("genre"), String::from_str(genre)));
                let w = WireRequest {
                    method: HttpMethod::Get,
                    url: self.api_url.clone(),
                    query,
                    headers: Vec::new(),
                    body: None,
                };
                proof {
                    assert(yts_genre(request.categories@) == Some(genre@));
                    assert(w@.query =~= yts_query(*request));
                    assert(w@.headers =~= Seq::<(Seq<char>, Seq<char>)>::empty());
                }
                return w;
            }
            i = i + 1;
        }
        proof {
            assert(request.categories@.skip(request.categories@.len() as int)
                =~= Seq::<Category>::empty());
        }
        let w = WireRequest {
            method: HttpMethod::Get,
            url: self.api_url.clone(),
            query,
            headers: Vec::new(),
            body: None,
        };
        proof {
            assert(w@.query =~= yts_query(*request));
            assert(w@.headers =~= Seq::<(Seq<char>, Seq<char>)>::empty());
        }
        w
    }

    /// Parses a YTS response body into torrents.  The parse fails, with a
    /// data-parse error, exactly when the body does not decode as a JSON
    /// object whose `data` field may hold a `movies` array; otherwise it
    /// returns exactly the torrents of the decoded movies, in order — an
    /// absent `movies` field a success with no results.
    pub fn parse_response(&self, response: &str) -> (r: Result<Vec<Torrent>, ClientError>)
        ensures
            yts_movies_of(response@) matches Some(ms) ==> (r matches Ok(ts) && ts.deep_view()
                == yts_torrents(ms)),
            yts_movies_of(response@) is None ==> (r matches Err(e) && e is DataParseError),
            r matches Ok(ts) ==> crate::magnet_templated(ts.deep_view())
                && crate::provenance_tagged(ts.deep_view(), "yts"@),
    {
        let movies = match read_movies(response) {
            Ok(v) => v,
            Err(m) => {
                return Err(ClientError::DataParseError(m));
            },
        };
        let ts = torrents_from_movies(&movies);
        proof {
            let ms = movies.deep_view();
            assert(ts.deep_view() == yts_torrents(ms));
            lemma_yts_provenance(ms);
        }
        Ok(ts)
    }
}

impl Default for Yts {
    /// A YTS provider addressing the public YTS API.
    fn default() -> (p: Yts)
        ensures
            p.spec_id() == "https://yts.mx/api/v2/list_movies.json"@,
    {
        Yts::new()
    }
}

} // verus!
