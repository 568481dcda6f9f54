use spiral::wallpaper::cache::{cached_names, image_ext, prune_lru, safe_id, Cached, THUMB_CACHE_MAX_BYTES};
use spiral::wallpaper::net::{download_status, transport_code};
use spiral::wallpaper::settings::{macos_clipping, macos_scaling, windows_style, FitMode, Settings};
use spiral::wallpaper::sources::{
    pexels_page, pexels_request, pexels_status, unsplash_feed_page, unsplash_item, unsplash_request,
    unsplash_search_page, unsplash_status, wallhaven_page, wallhaven_query, wallhaven_request,
    wallhaven_status, PexelsPhoto, PexelsResponse, UnsplashPhoto, WallhavenResponse,
    WallhavenWallpaper, PER_PAGE, WALLHAVEN_SEARCH,
};
use std::cell::RefCell;

#[test]
fn an_id_keeps_only_filename_safe_characters() {
    assert_eq!(safe_id("w-abc_123"), "w-abc_123");
    assert_eq!(safe_id("../../etc/passwd"), "etcpasswd");
    assert_eq!(safe_id("a b\\c.d"), "abcd");
    assert_eq!(safe_id(""), "");
}

#[test]
fn the_file_type_comes_from_the_bytes() {
    assert_eq!(image_ext(&[0xFF, 0xD8, 0xFF, 0xE0, 0]), Ok("jpg"));
    assert_eq!(image_ext(&[0x89, 0x50, 0x4E, 0x47, 0x0D, 0x0A, 0x1A, 0x0A, 1, 2]), Ok("png"));
    let webp = [b'R', b'I', b'F', b'F', 0, 0, 0, 0, b'W', b'E', b'B', b'P', 1];
    assert_eq!(image_ext(&webp), Ok("webp"));
    assert_eq!(image_ext(b"<html>not an image</html>"), Err("bad_image".to_string()));
    assert_eq!(image_ext(&[0xFF, 0xD8]), Err("bad_image".to_string()));
    let riff_not_webp = [b'R', b'I', b'F', b'F', 0, 0, 0, 0, b'W', b'A', b'V', b'E'];
    assert_eq!(image_ext(&riff_not_webp), Err("bad_image".to_string()));
}

#[test]
fn a_cached_file_is_looked_for_under_each_image_type() {
    assert_eq!(cached_names("w-1"), ["w-1.jpg", "w-1.png", "w-1.webp"]);
}

fn cached(path: &str, bytes: u64, touched: u128) -> Cached {
    Cached { path: path.to_string(), bytes, touched }
}

#[test]
fn a_cache_within_its_cap_is_left_alone() {
    let removed = RefCell::new(Vec::new());
    let remove = |p: &str| {
        removed.borrow_mut().push(p.to_string());
        true
    };
    let total = prune_lru(vec![cached("/a", 10, 1), cached("/b", 20, 2)], 30, &remove);
    assert_eq!(total, 30);
    assert!(removed.into_inner().is_empty());
}

#[test]
fn the_oldest_thumbnails_go_first_until_the_cache_is_within_its_cap() {
    let removed = RefCell::new(Vec::new());
    let remove = |p: &str| {
        removed.borrow_mut().push(p.to_string());
        true
    };
    let files = vec![cached("/new", 50, 30), cached("/old", 40, 10), cached("/mid", 30, 20)];
    let total = prune_lru(files, 70, &remove);
    assert_eq!(removed.into_inner(), ["/old", "/mid"]);
    assert_eq!(total, 50);
}

#[test]
fn a_file_that_could_not_be_removed_still_counts() {
    let removed = RefCell::new(Vec::new());
    let remove = |p: &str| {
        removed.borrow_mut().push(p.to_string());
        p != "/old"
    };
    let files = vec![cached("/old", 40, 10), cached("/mid", 30, 20), cached("/new", 50, 30)];
    let total = prune_lru(files, 70, &remove);
    assert_eq!(removed.into_inner(), ["/old", "/mid", "/new"]);
    assert_eq!(total, 40);
}

#[test]
fn the_thumbnail_cap_is_two_hundred_megabytes() {
    assert_eq!(THUMB_CACHE_MAX_BYTES, 200 * 1024 * 1024);
}

#[test]
fn a_transport_failure_reads_as_offline_or_a_bad_response() {
    assert_eq!(transport_code(true, false, false), "offline");
    assert_eq!(transport_code(false, true, false), "offline");
    assert_eq!(transport_code(false, false, true), "offline");
    assert_eq!(transport_code(false, false, false), "bad_response");
}

#[test]
fn a_download_status_maps_to_one_code() {
    assert_eq!(download_status(200), None);
    assert_eq!(download_status(429).as_deref(), Some("rate_limited"));
    assert_eq!(download_status(404).as_deref(), Some("download_failed"));
    assert_eq!(download_status(199).as_deref(), Some("download_failed"));
}

#[test]
fn each_source_maps_its_statuses() {
    assert_eq!(wallhaven_status(200), None);
    assert_eq!(wallhaven_status(429).as_deref(), Some("rate_limited"));
    assert_eq!(wallhaven_status(500).as_deref(), Some("bad_response"));
    assert_eq!(unsplash_status(401).as_deref(), Some("bad_key"));
    assert_eq!(unsplash_status(403).as_deref(), Some("rate_limited"));
    assert_eq!(unsplash_status(204), None);
    assert_eq!(pexels_status(401).as_deref(), Some("bad_key"));
    assert_eq!(pexels_status(403).as_deref(), Some("bad_key"));
    assert_eq!(pexels_status(429).as_deref(), Some("rate_limited"));
    assert_eq!(pexels_status(302).as_deref(), Some("bad_response"));
}

#[test]
fn a_wallhaven_search_is_safe_for_work_and_goes_to_wallhaven() {
    let q = wallhaven_query("mountains", "100", "toplist", 3);
    assert_eq!(
        q,
        [
            ("q".to_string(), "mountains".to_string()),
            ("categories".to_string(), "100".to_string()),
            ("purity".to_string(), "100".to_string()),
            ("sorting".to_string(), "toplist".to_string()),
            ("page".to_string(), "3".to_string()),
        ]
    );
    let r = wallhaven_request("x", "111", "date_added", 12);
    assert_eq!(r.url, WALLHAVEN_SEARCH);
    assert_eq!(r.auth, None);
    assert!(r.params.contains(&("purity".to_string(), "100".to_string())));
}

#[test]
fn unsplash_is_asked_for_its_feed_or_a_search() {
    let feed = unsplash_request("KEY", "", 2);
    assert_eq!(feed.url, "https://api.unsplash.com/photos");
    assert_eq!(feed.auth.as_deref(), Some("Client-ID KEY"));
    assert_eq!(
        feed.params,
        [
            ("page".to_string(), "2".to_string()),
            ("per_page".to_string(), "24".to_string()),
            ("order_by".to_string(), "popular".to_string()),
        ]
    );
    let search = unsplash_request("KEY", "sea", 1);
    assert_eq!(search.url, "https://api.unsplash.com/search/photos");
    assert_eq!(search.params[0], ("query".to_string(), "sea".to_string()));
}

#[test]
fn pexels_is_asked_for_its_curated_feed_or_a_search() {
    let feed = pexels_request("KEY", "", 5);
    assert_eq!(feed.url, "https://api.pexels.com/v1/curated");
    assert_eq!(feed.auth.as_deref(), Some("KEY"));
    assert_eq!(feed.params, [("page".to_string(), "5".to_string()), ("per_page".to_string(), "24".to_string())]);
    let search = pexels_request("KEY", "city", 1);
    assert_eq!(search.url, "https://api.pexels.com/v1/search");
    assert_eq!(search.params.len(), 3);
}

#[test]
fn a_wallhaven_page_prefixes_its_ids() {
    let page = wallhaven_page(WallhavenResponse {
        data: vec![WallhavenWallpaper {
            id: "abc".into(),
            resolution: "1920x1080".into(),
            path: "https://w.wallhaven.cc/full/abc.jpg".into(),
            thumb: "https://th.wallhaven.cc/lg/abc.jpg".into(),
        }],
        current_page: 1,
        last_page: 9,
    });
    assert_eq!(page.items[0].id, "w-abc");
    assert_eq!(page.items[0].full_url, "https://w.wallhaven.cc/full/abc.jpg");
    assert_eq!(page.items[0].thumb_url, "https://th.wallhaven.cc/lg/abc.jpg");
    assert_eq!((page.page, page.last_page), (1, 9));
}

#[test]
fn an_unsplash_photo_becomes_an_item() {
    let photo = UnsplashPhoto { id: "xyz".into(), width: 4000, height: 3000, small: "s".into(), full: "f".into() };
    let item = unsplash_item(&photo);
    assert_eq!(item.id, "u-xyz");
    assert_eq!(item.resolution, "4000x3000");
    assert_eq!(item.thumb_url, "s");
    assert_eq!(item.full_url, "f");
}

#[test]
fn the_unsplash_feed_counts_its_pages_from_the_total_header() {
    let photos = vec![];
    assert_eq!(unsplash_feed_page(&photos, 1, Some("49")).last_page, 3);
    assert_eq!(unsplash_feed_page(&photos, 1, Some("48")).last_page, 2);
    assert_eq!(unsplash_feed_page(&photos, 4, Some("48")).last_page, 4);
    assert_eq!(unsplash_feed_page(&photos, 1, None).last_page, 1);
    assert_eq!(unsplash_feed_page(&photos, 2, Some("many")).last_page, 2);
    assert_eq!(unsplash_search_page(&photos, 2, 7).last_page, 7);
    assert_eq!(PER_PAGE, 24);
}

#[test]
fn a_pexels_page_counts_its_pages_from_the_total() {
    let page = pexels_page(&PexelsResponse {
        photos: vec![PexelsPhoto { id: 42, width: 10, height: 20, large: "l".into(), original: "o".into() }],
        page: 2,
        total_results: 100,
    });
    assert_eq!(page.items[0].id, "p-42");
    assert_eq!(page.items[0].resolution, "10x20");
    assert_eq!(page.items[0].full_url, "o");
    assert_eq!(page.last_page, 5);
    assert_eq!(page.page, 2);
}

#[test]
fn fit_modes_map_to_each_platform() {
    assert_eq!(macos_scaling(FitMode::Fill), 3);
    assert_eq!(macos_scaling(FitMode::Fit), 3);
    assert_eq!(macos_scaling(FitMode::Center), 2);
    assert!(macos_clipping(FitMode::Fill));
    assert!(!macos_clipping(FitMode::Fit));
    assert_eq!(windows_style(FitMode::Fill), "10");
    assert_eq!(windows_style(FitMode::Fit), "6");
    assert_eq!(windows_style(FitMode::Center), "0");
}

#[test]
fn the_default_settings_are_disclosed_ones() {
    let s = Settings::default();
    assert!(!s.launch_at_login);
    assert!(s.keep_running_in_background);
    assert!(matches!(s.fit_mode, FitMode::Fill));
    assert!(!s.first_run_completed);
}
