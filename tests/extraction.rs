use bundle_watch::json::{embedded_json, Json, PageDataError};
use bundle_watch::ledger::Ledger;
use bundle_watch::product::{
    catalog, detail_url, page_data, Category, MediaType, Product, UtcTime,
};
use bundle_watch::sync::consider;

fn entry(machine_name: &str, url: &str) -> Json {
    let text = format!(
        r#"{{
        "product_url": "{url}",
        "author": "Humble Bundle",
        "tile_name": "Tile {machine_name}",
        "machine_name": "{machine_name}",
        "start_date|datetime": "2024-05-01T18:00:00",
        "end_date|datetime": "2024-05-21T18:00:00.5",
        "detailed_marketing_blurb": "Long text",
        "marketing_blurb": "Blurb",
        "short_marketing_blurb": "Short",
        "tile_logo": "logo.png",
        "high_res_tile_image": "thumb.png"
    }}"#
    );
    Json::parse(&text).unwrap()
}

fn page_json(tiers: &str) -> String {
    format!(
        r#"{{"bundleData": {{
        "tier_order": {tiers},
        "tier_pricing_data": {{
            "top": {{"price|money": {{"amount": 18.5, "currency": "USD"}}}},
            "mid": {{"price|money": {{"amount": 10.0}}}},
            "low": {{"price|money": {{"amount": 1}}}}
        }},
        "tier_display_data": {{
            "top": {{"tier_item_machine_names": ["g1", "g2", "g3"]}},
            "low": {{"tier_item_machine_names": ["g1"]}}
        }},
        "tier_item_data": {{
            "g1": {{"human_name": "Game One"}},
            "g2": {{"human_name": "Game Two"}},
            "g3": {{"human_name": "Game Three"}}
        }},
        "charity_data": {{
            "charity_item_machine_names": ["c1"],
            "charity_items": {{"c1": {{"human_name": "Good Cause"}}}}
        }},
        "basic_data": {{
            "media_type": "game",
            "description": "About",
            "msrp|money": {{"amount": 249.49}}
        }}
    }}}}"#
    )
}

fn page_html(tiers: &str) -> String {
    format!(
        "<html><head><script id=\"webpack-bundle-page-data\" type=\"application/json\">{}</script></head><body></body></html>",
        page_json(tiers)
    )
}

#[test]
fn detail_url_is_absolute() {
    let e = entry("x", "/games/x-bundle");
    assert_eq!(detail_url(&e).unwrap(), "https://www.humblebundle.com/games/x-bundle");
}

#[test]
fn extracts_full_product() {
    let e = entry("bundle_one", "/games/one");
    let page = Json::parse(&page_json(r#"["top", "mid", "low"]"#)).unwrap();
    let p = Product::from_json(&e, &page).unwrap();
    assert_eq!(p.product_url, "https://www.humblebundle.com/games/one");
    assert_eq!(p.author, "Humble Bundle");
    assert_eq!(p.name, "Tile bundle_one");
    assert_eq!(p.machine_name, "bundle_one");
    assert_eq!(p.media_type, MediaType::Game);
    assert_eq!(p.start_time, UtcTime { secs: 1714586400, nanos: 0 });
    assert_eq!(p.end_time, UtcTime { secs: 1716314400, nanos: 500_000_000 });
    assert_eq!(p.high_price, 19);
    assert_eq!(p.low_price, 1);
    assert_eq!(p.msrp, 249);
    assert_eq!(p.item_names, vec!["Game One", "Game Two", "Game Three"]);
    assert_eq!(p.charity_names, vec!["Good Cause"]);
    assert_eq!(p.description, "About");
    assert_eq!(p.detail_text, "Long text");
    assert_eq!(p.blurb, "Blurb");
    assert_eq!(p.short_blurb, "Short");
    assert_eq!(p.logo_url, "logo.png");
    assert_eq!(p.thumbnail_url, "thumb.png");
}

#[test]
fn extracts_from_html_page() {
    let e = entry("bundle_one", "/games/one");
    let p = Product::from_page(&e, &page_html(r#"["top", "low"]"#)).unwrap();
    assert_eq!(p.high_price, 19);
    assert_eq!(p.low_price, 1);
}

#[test]
fn single_tier_has_one_price() {
    let e = entry("solo", "/games/solo");
    let page = Json::parse(&page_json(r#"["low"]"#)).unwrap();
    let p = Product::from_json(&e, &page).unwrap();
    assert_eq!(p.low_price, 1);
    assert_eq!(p.high_price, 1);
    assert_eq!(p.item_names, vec!["Game One"]);
}

#[test]
fn missing_field_fails_listing() {
    let e = Json::parse(r#"{"product_url": "/x", "author": "a"}"#).unwrap();
    let page = Json::parse(&page_json(r#"["top"]"#)).unwrap();
    assert!(Product::from_json(&e, &page).is_err());
}

#[test]
fn empty_tier_order_fails() {
    let e = entry("x", "/x");
    let page = Json::parse(&page_json("[]")).unwrap();
    assert!(Product::from_json(&e, &page).is_err());
}

#[test]
fn unresolved_item_fails() {
    let e = entry("x", "/x");
    let text = page_json(r#"["top"]"#).replace(r#""g3": {"human_name": "Game Three"}"#, r#""g3": {}"#);
    let page = Json::parse(&text).unwrap();
    assert!(Product::from_json(&e, &page).is_err());
}

#[test]
fn page_without_data_element_fails() {
    assert!(page_data("<html><body><p>nothing</p></body></html>").is_err());
    assert!(page_data("<script id=\"webpack-bundle-page-data\">not json</script>").is_err());
}

#[test]
fn catalog_of_category() {
    let landing = Json::parse(
        r#"{"data": {"games": {"mosaic": [{"products": [{"machine_name": "a"}, {"machine_name": "b"}]}]},
                     "books": {"mosaic": []}}}"#,
    )
    .unwrap();
    assert_eq!(catalog(&landing, Category::Games).unwrap().len(), 2);
    assert!(catalog(&landing, Category::Books).is_err());
    assert!(catalog(&landing, Category::Software).is_err());
}

#[test]
fn fail_fast_category_leaves_record_unchanged() {
    let entries = vec![entry("one", "/one"), entry("two", "/two"), entry("three", "/three")];
    let pages = vec![
        page_html(r#"["top"]"#),
        "<html><body>no data here</body></html>".to_string(),
        page_html(r#"["top"]"#),
    ];
    let saved = "```old,99999999999```".to_string();
    let mut products = Vec::new();
    let mut failed = false;
    for (e, html) in entries.iter().zip(pages.iter()) {
        match Product::from_page(e, html) {
            Ok(p) => products.push(p),
            Err(_) => {
                failed = true;
                break;
            }
        }
    }
    assert!(failed);
    assert_eq!(products.len(), 1);
    // the category aborts before the ledger is read: nothing is considered,
    // announced or written back
    let record = Ledger::from_message(&saved).unwrap();
    assert_eq!(record.to_message(), saved);
    let mut scratch = Ledger::new();
    assert!(consider(&mut scratch, &products[0]));
}

#[test]
fn embedded_json_errors() {
    assert_eq!(
        embedded_json("<p>x</p>", "script#data").unwrap_err(),
        PageDataError::NotFound
    );
    assert_eq!(
        embedded_json("<script id=\"data\">{oops</script>", "script#data").unwrap_err(),
        PageDataError::NotJson
    );
    let j = embedded_json("<script id=\"data\">{\"k\": \"v\"}</script>", "script#data").unwrap();
    assert_eq!(j.get("k").and_then(|v| v.as_str()).map(|s| s.as_str()), Some("v"));
}

#[test]
fn json_lookups() {
    let j = Json::parse(r#"{"s": "text", "n": 12.50, "a": [1, 2], "o": {"x": null}}"#).unwrap();
    assert_eq!(j.get("s").unwrap().as_str().unwrap(), "text");
    assert_eq!(j.get("n").unwrap().as_number().unwrap(), "12.5");
    assert_eq!(j.get("a").unwrap().as_array().unwrap().len(), 2);
    assert!(j.get("o").unwrap().get("x").unwrap().as_str().is_none());
    assert!(j.get("missing").is_none());
    assert!(j.get("s").unwrap().get("s").is_none());
    assert!(Json::parse("not json").is_none());
}

#[test]
fn errors_name_the_failing_field() {
    let what = |e: &Json, page: &str| Product::from_json(e, &Json::parse(page).unwrap()).unwrap_err().what;
    let good = page_json(r#"["top", "low"]"#);
    let e = entry("x", "/x");
    let no_author = Json::parse(r#"{"product_url": "/x"}"#).unwrap();
    assert_eq!(what(&no_author, &good), "author");
    let no_url = Json::parse(r#"{"author": "a"}"#).unwrap();
    assert_eq!(what(&no_url, &good), "product_url");
    assert_eq!(what(&e, &page_json("[]")), "bundleData.tier_order");
    assert_eq!(what(&e, &page_json(r#"[1, "low"]"#)), "bundleData.tier_order[0]");
    assert_eq!(what(&e, &page_json(r#"["top", 2]"#)), "bundleData.tier_order[last]");
    assert_eq!(
        what(&e, &page_json(r#"["top", "none"]"#)),
        "bundleData.tier_pricing_data.none.price|money.amount"
    );
    assert_eq!(
        what(&e, &page_json(r#"["mid", "low"]"#)),
        "bundleData.tier_display_data.mid.tier_item_machine_names"
    );
    let bad_item = good.replace(r#""g3": {"human_name": "Game Three"}"#, r#""g3": {}"#);
    assert_eq!(what(&e, &bad_item), "bundleData.tier_item_data.*.human_name");
    let bad_msrp = good.replace("249.49", "\"free\"");
    assert_eq!(what(&e, &bad_msrp), "bundleData.basic_data.msrp|money.amount");
    let bad_time = Json::parse(
        r#"{"product_url": "/x", "author": "a", "tile_name": "t", "machine_name": "m",
            "start_date|datetime": "yesterday"}"#,
    )
    .unwrap();
    assert_eq!(what(&bad_time, &good), "start_date|datetime");
    let html_err = |html: &str| Product::from_page(&e, html).unwrap_err().what;
    assert_eq!(html_err("<p>none</p>"), "page data element");
    assert_eq!(html_err("<script id=\"webpack-bundle-page-data\">{</script>"), "page data JSON");
}

#[test]
fn catalog_errors_name_the_path() {
    let landing = Json::parse(r#"{"data": {"games": {"mosaic": []}, "books": {}}}"#).unwrap();
    assert_eq!(catalog(&landing, Category::Games).unwrap_err().what, "data.games.mosaic[0].products");
    assert_eq!(catalog(&landing, Category::Books).unwrap_err().what, "data.books.mosaic");
}
