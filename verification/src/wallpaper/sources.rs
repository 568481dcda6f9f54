//! The three wallpaper sources' answers, shaped into one page type. Each
//! source's ids are prefixed with its own letter; every status a source can
//! answer maps to one short code.

use super::net::{opt_string, SearchPage, WallpaperItem};
use crate::text::{
    chars_of, decimal, decimal_string, parse_unsigned, parse_unsigned_chars, push_str, string_of,
};
use vstd::prelude::*;

verus! {

/// Results per page requested from Unsplash and Pexels.
pub const PER_PAGE: u32 = 24;

pub open spec fn ok_status(s: u16) -> bool {
    200 <= s < 300
}

// ---------------------------------------------------------------------------
// Wallhaven
// ---------------------------------------------------------------------------

/// The one Wallhaven endpoint searches go to.
pub const WALLHAVEN_SEARCH: &'static str = "https://wallhaven.cc/api/v1/search";

/// A search's parameters: the user's query, categories and sorting, the
/// page, and always `purity=100` (safe for work only).
pub open spec fn wallhaven_query_spec(query: Seq<char>, categories: Seq<char>, sorting: Seq<char>, page: u32) -> Seq<
    (Seq<char>, Seq<char>),
> {
    seq![
        ("q"@, query),
        ("categories"@, categories),
        ("purity"@, "100"@),
        ("sorting"@, sorting),
        ("page"@, decimal(page as nat)),
    ]
}

pub open spec fn pairs_view(v: Seq<(String, String)>) -> Seq<(Seq<char>, Seq<char>)> {
    v.map_values(|p: (String, String)| (p.0@, p.1@))
}

pub fn wallhaven_query(query: &str, categories: &str, sorting: &str, page: u32) -> (r: Vec<(String, String)>)
    ensures
        pairs_view(r@) == wallhaven_query_spec(query@, categories@, sorting@, page),
{
    let mut r: Vec<(String, String)> = Vec::new();
    r.push(("q".to_owned(), query.to_owned()));
    r.push(("categories".to_owned(), categories.to_owned()));
    r.push(("purity".to_owned(), "100".to_owned()));
    r.push(("sorting".to_owned(), sorting.to_owned()));
    r.push(("page".to_owned(), decimal_string(page as u64)));
    assert(pairs_view(r@) =~= wallhaven_query_spec(query@, categories@, sorting@, page));
    r
}

/// Whatever the user types, a search asks Wallhaven for safe-for-work
/// results only: the purity parameter is never anything but `100`.
pub proof fn lemma_every_search_is_safe_for_work(query: Seq<char>, categories: Seq<char>, sorting: Seq<char>, page: u32)
    ensures
        wallhaven_query_spec(query, categories, sorting, page).contains(("purity"@, "100"@)),
        forall|i: int|
            0 <= i < wallhaven_query_spec(query, categories, sorting, page).len()
                && (#[trigger] wallhaven_query_spec(query, categories, sorting, page)[i]).0 == "purity"@
                ==> wallhaven_query_spec(query, categories, sorting, page)[i].1 == "100"@,
{
    reveal_strlit("q");
    reveal_strlit("categories");
    reveal_strlit("purity");
    reveal_strlit("sorting");
    reveal_strlit("page");
    let t = wallhaven_query_spec(query, categories, sorting, page);
    assert(t[2] == ("purity"@, "100"@));
    assert forall|i: int| 0 <= i < t.len() && (#[trigger] t[i]).0 == "purity"@ implies t[i].1 == "100"@ by {
        if i != 2 {
            assert(t[i].0.len() != "purity"@.len());
        }
    }
}

pub struct WallhavenWallpaper {
    pub id: String,
    pub resolution: String,
    /// The full-size image.
    pub path: String,
    /// `thumbs.large`.
    pub thumb: String,
}

pub struct WallhavenResponse {
    pub data: Vec<WallhavenWallpaper>,
    pub current_page: u32,
    pub last_page: u32,
}

pub open spec fn wallhaven_status_spec(s: u16) -> Option<Seq<char>> {
    if s == 429 {
        Some("rate_limited"@)
    } else if !ok_status(s) {
        Some("bad_response"@)
    } else {
        None
    }
}

pub fn wallhaven_status(status: u16) -> (r: Option<String>)
    ensures
        opt_string(r) == wallhaven_status_spec(status),
{
    if status == 429 {
        Some("rate_limited".to_owned())
    } else if !(200 <= status && status < 300) {
        Some("bad_response".to_owned())
    } else {
        None
    }
}

pub open spec fn item_view(i: WallpaperItem) -> (Seq<char>, Seq<char>, Seq<char>, Seq<char>) {
    (i.id@, i.resolution@, i.thumb_url@, i.full_url@)
}

fn prefixed(prefix: &str, id: &str) -> (r: String)
    ensures
        r@ == prefix@ + id@,
{
    let mut v = chars_of(prefix);
    push_str(&mut v, id);
    string_of(v.as_slice())
}

/// Wallhaven's answer as a page: ids prefixed `w-`, the large thumbnail, and
/// the pages as Wallhaven counts them.
pub fn wallhaven_page(api: WallhavenResponse) -> (r: SearchPage)
    ensures
        r.page == api.current_page,
        r.last_page == api.last_page,
        r.items@.len() == api.data@.len(),
        forall|i: int|
            0 <= i < r.items@.len() ==> item_view(#[trigger] r.items@[i]) == (
                "w-"@ + api.data@[i].id@,
                api.data@[i].resolution@,
                api.data@[i].thumb@,
                api.data@[i].path@,
            ),
{
    let mut items: Vec<WallpaperItem> = Vec::new();
    let mut i: usize = 0;
    while i < api.data.len()
        invariant
            i <= api.data.len(),
            items@.len() == i,
            forall|j: int|
                0 <= j < i ==> item_view(#[trigger] items@[j]) == (
                    "w-"@ + api.data@[j].id@,
                    api.data@[j].resolution@,
                    api.data@[j].thumb@,
                    api.data@[j].path@,
                ),
        decreases api.data.len() - i,
    {
        let w = &api.data[i];
        items.push(WallpaperItem {
            id: prefixed("w-", w.id.as_str()),
            resolution: w.resolution.clone(),
            thumb_url: w.thumb.clone(),
            full_url: w.path.clone(),
        });
        i += 1;
    }
    SearchPage { items, page: api.current_page, last_page: api.last_page }
}

// ---------------------------------------------------------------------------
// Unsplash
// ---------------------------------------------------------------------------

pub struct UnsplashPhoto {
    pub id: String,
    pub width: u32,
    pub height: u32,
    /// `urls.small`.
    pub small: String,
    /// `urls.full`.
    pub full: String,
}

/// Unsplash signals demo-tier rate limiting with 403.
pub open spec fn unsplash_status_spec(s: u16) -> Option<Seq<char>> {
    if s == 401 {
        Some("bad_key"@)
    } else if s == 403 || s == 429 {
        Some("rate_limited"@)
    } else if !ok_status(s) {
        Some("bad_response"@)
    } else {
        None
    }
}

pub fn unsplash_status(status: u16) -> (r: Option<String>)
    ensures
        opt_string(r) == unsplash_status_spec(status),
{
    if status == 401 {
        Some("bad_key".to_owned())
    } else if status == 403 || status == 429 {
        Some("rate_limited".to_owned())
    } else if !(200 <= status && status < 300) {
        Some("bad_response".to_owned())
    } else {
        None
    }
}

pub open spec fn resolution_text(w: u64, h: u64) -> Seq<char> {
    decimal(w as nat) + "x"@ + decimal(h as nat)
}

fn resolution(w: u64, h: u64) -> (r: String)
    ensures
        r@ == resolution_text(w, h),
{
    let mut v = chars_of(decimal_string(w).as_str());
    push_str(&mut v, "x");
    push_str(&mut v, decimal_string(h).as_str());
    string_of(v.as_slice())
}

pub open spec fn unsplash_item_view(p: UnsplashPhoto) -> (Seq<char>, Seq<char>, Seq<char>, Seq<char>) {
    ("u-"@ + p.id@, resolution_text(p.width as u64, p.height as u64), p.small@, p.full@)
}

pub fn unsplash_item(photo: &UnsplashPhoto) -> (r: WallpaperItem)
    ensures
        item_view(r) == unsplash_item_view(*photo),
        r.thumb_url@ == photo.small@,
        r.full_url@ == photo.full@,
{
    proof {
        lemma_unsplash_shows_small_and_opens_full(*photo);
    }
    WallpaperItem {
        id: prefixed("u-", photo.id.as_str()),
        resolution: resolution(photo.width as u64, photo.height as u64),
        thumb_url: photo.small.clone(),
        full_url: photo.full.clone(),
    }
}

fn unsplash_items(photos: &Vec<UnsplashPhoto>) -> (r: Vec<WallpaperItem>)
    ensures
        r@.len() == photos@.len(),
        forall|i: int| 0 <= i < r@.len() ==> item_view(#[trigger] r@[i]) == unsplash_item_view(photos@[i]),
{
    let mut items: Vec<WallpaperItem> = Vec::new();
    let mut i: usize = 0;
    while i < photos.len()
        invariant
            i <= photos.len(),
            items@.len() == i,
            forall|j: int| 0 <= j < i ==> item_view(#[trigger] items@[j]) == unsplash_item_view(photos@[j]),
        decreases photos.len() - i,
    {
        items.push(unsplash_item(&photos[i]));
        i += 1;
    }
    items
}

/// Pages needed for `total` results, never fewer than the page asked for.
pub open spec fn pages_for(total: u32, page: u32) -> u32 {
    let pages = ((total as int + PER_PAGE - 1) / PER_PAGE as int) as u32;
    if pages > page { pages } else { page }
}

/// The page count covers every result at 24 a page, never falls below the
/// page asked for, and has no page to spare beyond it.
pub proof fn lemma_pages_cover_the_results(total: u32, page: u32)
    ensures
        pages_for(total, page) >= page,
        pages_for(total, page) * 24 >= total,
        pages_for(total, page) > page ==> (pages_for(total, page) - 1) * 24 < total,
{
    let q: int = (total as int + 23) / 24;
    assert(q * 24 >= total as int && (q - 1) * 24 < total as int) by (nonlinear_arith)
        requires
            q == (total as int + 23) / 24,
            total >= 0,
    ;
    assert(q <= u32::MAX) by (nonlinear_arith)
        requires
            q == (total as int + 23) / 24,
            total <= u32::MAX,
    ;
    assert(pages_for(total, page) == if q > page { q } else { page as int });
}

fn pages(total: u32, page: u32) -> (r: u32)
    ensures
        r == pages_for(total, page),
{
    let p = ((total as u64 + 23) / 24) as u32;
    if p > page { p } else { page }
}

pub open spec fn header_total(h: Option<Seq<char>>) -> u32 {
    match h {
        Some(t) => match parse_unsigned(t, u32::MAX as nat) {
            Some(n) => n as u32,
            None => 0,
        },
        None => 0,
    }
}

pub open spec fn opt_str(o: Option<&str>) -> Option<Seq<char>> {
    match o {
        Some(s) => Some(s@),
        None => None,
    }
}

/// The popular feed: the page asked for, and enough pages for the
/// `x-total` header's count (none when it is absent or not a number).
pub fn unsplash_feed_page(photos: &Vec<UnsplashPhoto>, page: u32, x_total: Option<&str>) -> (r: SearchPage)
    ensures
        r.page == page,
        r.last_page == pages_for(header_total(opt_str(x_total)), page),
        r.items@.len() == photos@.len(),
        forall|i: int| 0 <= i < r.items@.len() ==> item_view(#[trigger] r.items@[i]) == unsplash_item_view(photos@[i]),
{
    let total: u32 = match x_total {
        Some(t) => match parse_unsigned_chars(chars_of(t).as_slice(), 4294967295) {
            Some(n) => n as u32,
            None => 0,
        },
        None => 0,
    };
    SearchPage { items: unsplash_items(photos), page, last_page: pages(total, page) }
}

/// A search: the page asked for, and Unsplash's own page count.
pub fn unsplash_search_page(photos: &Vec<UnsplashPhoto>, page: u32, total_pages: u32) -> (r: SearchPage)
    ensures
        r.page == page,
        r.last_page == total_pages,
        r.items@.len() == photos@.len(),
        forall|i: int| 0 <= i < r.items@.len() ==> item_view(#[trigger] r.items@[i]) == unsplash_item_view(photos@[i]),
{
    SearchPage { items: unsplash_items(photos), page, last_page: total_pages }
}

// ---------------------------------------------------------------------------
// Pexels
// ---------------------------------------------------------------------------

pub struct PexelsPhoto {
    pub id: u64,
    pub width: u32,
    pub height: u32,
    /// `src.large`.
    pub large: String,
    /// `src.original`.
    pub original: String,
}

pub struct PexelsResponse {
    pub photos: Vec<PexelsPhoto>,
    pub page: u32,
    pub total_results: u32,
}

pub open spec fn pexels_status_spec(s: u16) -> Option<Seq<char>> {
    if s == 401 || s == 403 {
        Some("bad_key"@)
    } else if s == 429 {
        Some("rate_limited"@)
    } else if !ok_status(s) {
        Some("bad_response"@)
    } else {
        None
    }
}

pub fn pexels_status(status: u16) -> (r: Option<String>)
    ensures
        opt_string(r) == pexels_status_spec(status),
{
    if status == 401 || status == 403 {
        Some("bad_key".to_owned())
    } else if status == 429 {
        Some("rate_limited".to_owned())
    } else if !(200 <= status && status < 300) {
        Some("bad_response".to_owned())
    } else {
        None
    }
}

pub open spec fn pexels_item_view(p: PexelsPhoto) -> (Seq<char>, Seq<char>, Seq<char>, Seq<char>) {
    ("p-"@ + decimal(p.id as nat), resolution_text(p.width as u64, p.height as u64), p.large@, p.original@)
}

/// Pexels' answer as a page: ids prefixed `p-`, and enough pages for its
/// result count, never fewer than the page it says it served.
pub fn pexels_page(api: &PexelsResponse) -> (r: SearchPage)
    ensures
        r.page == api.page,
        r.last_page == pages_for(api.total_results, api.page),
        r.items@.len() == api.photos@.len(),
        forall|i: int| 0 <= i < r.items@.len() ==> item_view(#[trigger] r.items@[i]) == pexels_item_view(api.photos@[i]),
        forall|i: int|
            0 <= i < r.items@.len() ==> (#[trigger] r.items@[i]).thumb_url@ == api.photos@[i].large@
                && r.items@[i].full_url@ == api.photos@[i].original@,
{
    proof {
        assert forall|p: PexelsPhoto| #[trigger] pexels_item_view(p).2 == p.large@ && pexels_item_view(p).3
            == p.original@ by {
            lemma_pexels_shows_large_and_opens_original(p);
        }
    }
    let mut items: Vec<WallpaperItem> = Vec::new();
    let mut i: usize = 0;
    while i < api.photos.len()
        invariant
            i <= api.photos.len(),
            items@.len() == i,
            forall|j: int| 0 <= j < i ==> item_view(#[trigger] items@[j]) == pexels_item_view(api.photos@[j]),
        decreases api.photos.len() - i,
    {
        let p = &api.photos[i];
        let id = decimal_string(p.id);
        items.push(WallpaperItem {
            id: prefixed("p-", id.as_str()),
            resolution: resolution(p.width as u64, p.height as u64),
            thumb_url: p.large.clone(),
            full_url: p.original.clone(),
        });
        i += 1;
    }
    SearchPage { items, page: api.page, last_page: pages(api.total_results, api.page) }
}

// ---------------------------------------------------------------------------
// The requests
// ---------------------------------------------------------------------------

/// One search request: where it goes, the `Authorization` header when the
/// source needs one, and the query parameters in the order they are sent.
pub struct Request {
    pub url: String,
    pub auth: Option<String>,
    pub params: Vec<(String, String)>,
}

pub open spec fn request_view(r: Request) -> (Seq<char>, Option<Seq<char>>, Seq<(Seq<char>, Seq<char>)>) {
    (r.url@, opt_string(r.auth), pairs_view(r.params@))
}

pub open spec fn unsplash_request_spec(key: Seq<char>, query: Seq<char>, page: u32) -> (
    Seq<char>,
    Option<Seq<char>>,
    Seq<(Seq<char>, Seq<char>)>,
) {
    let auth = Some("Client-ID "@ + key);
    if query.len() == 0 {
        (
            "https://api.unsplash.com/photos"@,
            auth,
            seq![("page"@, decimal(page as nat)), ("per_page"@, "24"@), ("order_by"@, "popular"@)],
        )
    } else {
        (
            "https://api.unsplash.com/search/photos"@,
            auth,
            seq![("query"@, query), ("page"@, decimal(page as nat)), ("per_page"@, "24"@)],
        )
    }
}

pub open spec fn pexels_request_spec(key: Seq<char>, query: Seq<char>, page: u32) -> (
    Seq<char>,
    Option<Seq<char>>,
    Seq<(Seq<char>, Seq<char>)>,
) {
    if query.len() == 0 {
        (
            "https://api.pexels.com/v1/curated"@,
            Some(key),
            seq![("page"@, decimal(page as nat)), ("per_page"@, "24"@)],
        )
    } else {
        (
            "https://api.pexels.com/v1/search"@,
            Some(key),
            seq![("query"@, query), ("page"@, decimal(page as nat)), ("per_page"@, "24"@)],
        )
    }
}

fn pair(k: &str, v: String) -> (r: (String, String))
    ensures
        r.0@ == k@,
        r.1@ == v@,
{
    (k.to_owned(), v)
}

/// A Wallhaven search: its one endpoint, no key, and the parameters of
/// `wallhaven_query`.
pub fn wallhaven_request(query: &str, categories: &str, sorting: &str, page: u32) -> (r: Request)
    ensures
        request_view(r) == (WALLHAVEN_SEARCH@, None::<Seq<char>>, wallhaven_query_spec(query@, categories@, sorting@, page)),
{
    Request { url: WALLHAVEN_SEARCH.to_owned(), auth: None, params: wallhaven_query(query, categories, sorting, page) }
}

/// An Unsplash request: the popular editorial feed for an empty query,
/// full-text search otherwise.
pub fn unsplash_request(key: &str, query: &str, page: u32) -> (r: Request)
    ensures
        request_view(r) == unsplash_request_spec(key@, query@, page),
        sends(pairs_view(r.params@), "page"@, decimal(page as nat)),
        query@.len() > 0 ==> sends(pairs_view(r.params@), "query"@, query@),
{
    proof {
        lemma_requests_ask_for_the_given_page(key@, query@, Seq::empty(), Seq::empty(), page);
    }
    let mut a = chars_of("Client-ID ");
    push_str(&mut a, key);
    let auth = Some(string_of(a.as_slice()));
    let mut params: Vec<(String, String)> = Vec::new();
    if chars_of(query).len() == 0 {
        params.push(pair("page", decimal_string(page as u64)));
        params.push(pair("per_page", "24".to_owned()));
        params.push(pair("order_by", "popular".to_owned()));
        let r = Request { url: "https://api.unsplash.com/photos".to_owned(), auth, params };
        assert(pairs_view(r.params@) =~= unsplash_request_spec(key@, query@, page).2);
        r
    } else {
        params.push(pair("query", query.to_owned()));
        params.push(pair("page", decimal_string(page as u64)));
        params.push(pair("per_page", "24".to_owned()));
        let r = Request { url: "https://api.unsplash.com/search/photos".to_owned(), auth, params };
        assert(pairs_view(r.params@) =~= unsplash_request_spec(key@, query@, page).2);
        r
    }
}

/// A Pexels request: the curated feed for an empty query, search otherwise.
pub fn pexels_request(key: &str, query: &str, page: u32) -> (r: Request)
    ensures
        request_view(r) == pexels_request_spec(key@, query@, page),
        opt_string(r.auth) == Some(key@),
        sends(pairs_view(r.params@), "page"@, decimal(page as nat)),
        query@.len() > 0 ==> sends(pairs_view(r.params@), "query"@, query@),
{
    proof {
        lemma_requests_ask_for_the_given_page(key@, query@, Seq::empty(), Seq::empty(), page);
    }
    let mut params: Vec<(String, String)> = Vec::new();
    if chars_of(query).len() == 0 {
        params.push(pair("page", decimal_string(page as u64)));
        params.push(pair("per_page", "24".to_owned()));
        let r = Request { url: "https://api.pexels.com/v1/curated".to_owned(), auth: Some(key.to_owned()), params };
        assert(pairs_view(r.params@) =~= pexels_request_spec(key@, query@, page).2);
        r
    } else {
        params.push(pair("query", query.to_owned()));
        params.push(pair("page", decimal_string(page as u64)));
        params.push(pair("per_page", "24".to_owned()));
        let r = Request { url: "https://api.pexels.com/v1/search".to_owned(), auth: Some(key.to_owned()), params };
        assert(pairs_view(r.params@) =~= pexels_request_spec(key@, query@, page).2);
        r
    }
}

/// `params` sends `name` with `value`: the pair is there, and no other
/// entry under that name says anything else.
pub open spec fn sends(params: Seq<(Seq<char>, Seq<char>)>, name: Seq<char>, value: Seq<char>) -> bool {
    &&& exists|i: int| 0 <= i < params.len() && #[trigger] params[i] == (name, value)
    &&& forall|i: int| 0 <= i < params.len() && (#[trigger] params[i]).0 == name ==> params[i].1 == value
}

/// Every source asks for the page it was given, written in decimal, on its
/// feed and its search alike; a search sends the query as typed, and
/// Unsplash and Pexels are asked for 24 results a page.
pub proof fn lemma_requests_ask_for_the_given_page(
    key: Seq<char>,
    query: Seq<char>,
    categories: Seq<char>,
    sorting: Seq<char>,
    page: u32,
)
    ensures
        sends(wallhaven_query_spec(query, categories, sorting, page), "page"@, decimal(page as nat)),
        sends(wallhaven_query_spec(query, categories, sorting, page), "q"@, query),
        sends(unsplash_request_spec(key, query, page).2, "page"@, decimal(page as nat)),
        sends(pexels_request_spec(key, query, page).2, "page"@, decimal(page as nat)),
        sends(unsplash_request_spec(key, query, page).2, "per_page"@, "24"@),
        sends(pexels_request_spec(key, query, page).2, "per_page"@, "24"@),
        query.len() > 0 ==> sends(unsplash_request_spec(key, query, page).2, "query"@, query),
        query.len() > 0 ==> sends(pexels_request_spec(key, query, page).2, "query"@, query),
        pexels_request_spec(key, query, page).1 == Some(key),
        unsplash_request_spec(key, query, page).1 == Some("Client-ID "@ + key),
{
    reveal_strlit("q");
    reveal_strlit("categories");
    reveal_strlit("purity");
    reveal_strlit("sorting");
    reveal_strlit("page");
    reveal_strlit("per_page");
    reveal_strlit("order_by");
    reveal_strlit("query");
    assert("per_page"@[0] != "order_by"@[0]);
    assert("per_page"@ != "order_by"@);
    let w = wallhaven_query_spec(query, categories, sorting, page);
    assert(w[4] == ("page"@, decimal(page as nat)));
    assert(w[0] == ("q"@, query));
    assert forall|i: int| 0 <= i < w.len() && (#[trigger] w[i]).0 == "page"@ implies w[i].1 == decimal(page as nat) by {
        if i != 4 {
            assert(w[i].0.len() != "page"@.len());
        }
    }
    assert forall|i: int| 0 <= i < w.len() && (#[trigger] w[i]).0 == "q"@ implies w[i].1 == query by {
        if i != 0 {
            assert(w[i].0.len() != "q"@.len());
        }
    }
    let u = unsplash_request_spec(key, query, page).2;
    let x = pexels_request_spec(key, query, page).2;
    let at = if query.len() == 0 { 0int } else { 1int };
    assert forall|i: int| 0 <= i < u.len() && (#[trigger] u[i]).0 == "page"@ implies u[i].1 == decimal(page as nat) by {
        if i != at {
            assert(u[i].0.len() != "page"@.len());
        }
    }
    assert forall|i: int| 0 <= i < x.len() && (#[trigger] x[i]).0 == "page"@ implies x[i].1 == decimal(page as nat) by {
        if i != at {
            assert(x[i].0.len() != "page"@.len());
        }
    }
    if query.len() == 0 {
        assert(u[0] == ("page"@, decimal(page as nat)));
        assert(u[1] == ("per_page"@, "24"@));
        assert(x[0] == ("page"@, decimal(page as nat)));
        assert(x[1] == ("per_page"@, "24"@));
    } else {
        assert(u[1] == ("page"@, decimal(page as nat)));
        assert(u[2] == ("per_page"@, "24"@));
        assert(u[0] == ("query"@, query));
        assert(x[1] == ("page"@, decimal(page as nat)));
        assert(x[2] == ("per_page"@, "24"@));
        assert(x[0] == ("query"@, query));
    }
}

/// A Pexels photo is shown by its `large` rendition and opened at its
/// `original`, under the id `p-` and its number.
pub proof fn lemma_pexels_shows_large_and_opens_original(p: PexelsPhoto)
    ensures
        pexels_item_view(p).0 == "p-"@ + decimal(p.id as nat),
        pexels_item_view(p).2 == p.large@,
        pexels_item_view(p).3 == p.original@,
{
}

/// An Unsplash photo is shown by its `small` rendition and opened at its
/// `full` one, under the id `u-` and its own id.
pub proof fn lemma_unsplash_shows_small_and_opens_full(p: UnsplashPhoto)
    ensures
        unsplash_item_view(p).0 == "u-"@ + p.id@,
        unsplash_item_view(p).2 == p.small@,
        unsplash_item_view(p).3 == p.full@,
{
}

/// How the sources' answers read: any 2xx is no error at any source, 429
/// is rate limiting at every one, a refused key (401; 403 at Pexels) is
/// `bad_key`, Unsplash's 403 is its demo-tier rate limit, and any other
/// status outside 2xx is a bad response.
pub proof fn lemma_statuses_read_alike(s: u16)
    ensures
        200 <= s < 300 ==> wallhaven_status_spec(s) is None && unsplash_status_spec(s) is None
            && pexels_status_spec(s) is None,
        s == 429 ==> wallhaven_status_spec(s) == Some("rate_limited"@) && unsplash_status_spec(s) == Some(
            "rate_limited"@,
        ) && pexels_status_spec(s) == Some("rate_limited"@),
        s == 401 ==> unsplash_status_spec(s) == Some("bad_key"@) && pexels_status_spec(s) == Some("bad_key"@),
        s == 403 ==> unsplash_status_spec(s) == Some("rate_limited"@) && pexels_status_spec(s) == Some("bad_key"@),
        !(200 <= s < 300) && s != 429 && s != 401 && s != 403 ==> wallhaven_status_spec(s) == Some("bad_response"@)
            && unsplash_status_spec(s) == Some("bad_response"@) && pexels_status_spec(s) == Some("bad_response"@),
        !(200 <= s < 300) && s != 429 ==> wallhaven_status_spec(s) == Some("bad_response"@),
{
}

pub open spec fn starts_with_text(s: Seq<char>, p: Seq<char>) -> bool {
    p.len() <= s.len() && s.subrange(0, p.len() as int) == p
}

/// Each source is asked at its own host and nowhere else, whatever the
/// user typed: the query only ever travels as a parameter.
pub proof fn lemma_each_source_talks_only_to_its_host(key: Seq<char>, query: Seq<char>, categories: Seq<char>, sorting: Seq<char>, page: u32)
    ensures
        starts_with_text(WALLHAVEN_SEARCH@, "https://wallhaven.cc/"@),
        starts_with_text(unsplash_request_spec(key, query, page).0, "https://api.unsplash.com/"@),
        starts_with_text(pexels_request_spec(key, query, page).0, "https://api.pexels.com/"@),
{
    reveal_strlit("https://wallhaven.cc/api/v1/search");
    reveal_strlit("https://wallhaven.cc/");
    reveal_strlit("https://api.unsplash.com/photos");
    reveal_strlit("https://api.unsplash.com/search/photos");
    reveal_strlit("https://api.unsplash.com/");
    reveal_strlit("https://api.pexels.com/v1/curated");
    reveal_strlit("https://api.pexels.com/v1/search");
    reveal_strlit("https://api.pexels.com/");
    assert(WALLHAVEN_SEARCH@.subrange(0, 21) =~= "https://wallhaven.cc/"@);
    assert("https://api.unsplash.com/photos"@.subrange(0, 25) =~= "https://api.unsplash.com/"@);
    assert("https://api.unsplash.com/search/photos"@.subrange(0, 25) =~= "https://api.unsplash.com/"@);
    assert("https://api.pexels.com/v1/curated"@.subrange(0, 23) =~= "https://api.pexels.com/"@);
    assert("https://api.pexels.com/v1/search"@.subrange(0, 23) =~= "https://api.pexels.com/"@);
}

} // verus!
