//! The product fact record and its extraction from a catalog entry and the
//! page data of the entry's detail page.

use vstd::prelude::*;
use crate::json::{Json, PageDataError, embedded_json, same_text, selected_text, json_of};
use crate::text::{amount_value, chars_of, parse_amount, push_str, string_of};

verus! {

/// Site that the relative product URLs of the catalog point into.
pub const SITE_BASE_URL: &'static str = "https://www.humblebundle.com";

/// Selector of the script element that holds a detail page's data.
pub const PAGE_DATA_SELECTOR: &'static str = "script#webpack-bundle-page-data";

/// What a listing sells; informational only.
#[derive(Debug, Clone, Copy, PartialEq, Eq, Structural)]
pub enum MediaType {
    Game,
    EBook,
    Software,
    Unknown,
}

pub open spec fn media_type_of(value: Seq<char>) -> MediaType {
    if value == "game"@ {
        MediaType::Game
    } else if value == "ebook"@ {
        MediaType::EBook
    } else if value == "software"@ {
        MediaType::Software
    } else {
        MediaType::Unknown
    }
}

impl MediaType {
    /// Classifies a media type name; names it does not know are `Unknown`.
    pub fn from_str(value: &str) -> (r: MediaType)
        ensures
            r == media_type_of(value@),
    {
        if same_text(value, "game") {
            MediaType::Game
        } else if same_text(value, "ebook") {
            MediaType::EBook
        } else if same_text(value, "software") {
            MediaType::Software
        } else {
            MediaType::Unknown
        }
    }
}

/// An absolute instant in UTC: seconds since the Unix epoch and nanoseconds.
#[derive(Debug, Clone, Copy, PartialEq, Eq, Structural)]
pub struct UtcTime {
    pub secs: i64,
    pub nanos: u32,
}

/// The instant that chrono reads from an RFC 3339 text, as seconds since the
/// epoch and nanoseconds, if it reads one.
pub uninterp spec fn utc_time_of(text: Seq<char>) -> Option<(i64, u32)>;

/// Relies on chrono's `FromStr` for `DateTime<Utc>` with `timestamp` and
/// `timestamp_subsec_nanos`: the instant depends on the text alone.
#[verifier::external_body]
fn parse_utc(text: &str) -> (r: Option<(i64, u32)>)
    ensures
        r == utc_time_of(text@),
{
    text.parse::<chrono::DateTime<chrono::Utc>>().ok().map(
        |d| (d.timestamp(), d.timestamp_subsec_nanos()),
    )
}

/// A listing's facts.
#[derive(Debug)]
pub struct Product {
    pub author: String,
    pub name: String,
    pub machine_name: String,
    pub media_type: MediaType,
    pub start_time: UtcTime,
    pub end_time: UtcTime,
    pub description: String,
    /// The detailed marketing blurb, as the catalog entry gives it.
    pub detail_text: String,
    pub blurb: String,
    pub short_blurb: String,
    /// Money amounts are JSON numbers rounded half away from zero and saturated
    /// to `i32`; a number that serde_json prints with an exponent (below 1e-5
    /// or from 1e16 on, in magnitude) is not read, and fails the extraction.
    pub msrp: i32,
    pub high_price: i32,
    pub low_price: i32,
    pub product_url: String,
    pub logo_url: String,
    pub thumbnail_url: String,
    pub item_names: Vec<String>,
    pub charity_names: Vec<String>,
}

/// Extraction failed: `what` is the path of the field that is missing or malformed.
#[derive(Debug)]
pub struct ExtractError {
    pub what: String,
}

pub open spec fn at(j: Option<Json>, key: Seq<char>) -> Option<Json> {
    match j {
        Some(v) => v.field(key),
        None => None,
    }
}

pub open spec fn text_of(j: Option<Json>) -> Option<Seq<char>> {
    match j {
        Some(v) => v.text(),
        None => None,
    }
}

pub open spec fn items_of(j: Option<Json>) -> Option<Seq<Json>> {
    match j {
        Some(v) => v.items(),
        None => None,
    }
}

pub open spec fn amount_of(j: Option<Json>) -> Option<i32> {
    match j {
        Some(v) => match v.number() {
            Some(t) => amount_value(t),
            None => None,
        },
        None => None,
    }
}

pub open spec fn opt(r: Option<&Json>) -> Option<Json> {
    match r {
        Some(x) => Some(*x),
        None => None,
    }
}

pub open spec fn views(v: Seq<String>) -> Seq<Seq<char>> {
    v.map_values(|s: String| s@)
}

/// The human names of the machine names `keys`, each looked up in `table`.
pub open spec fn resolve_names(keys: Seq<Json>, table: Option<Json>) -> Option<Seq<Seq<char>>>
    decreases keys.len(),
{
    if keys.len() == 0 {
        Some(seq![])
    } else {
        match resolve_names(keys.drop_last(), table) {
            None => None,
            Some(prev) => match keys.last().text() {
                None => None,
                Some(k) => match text_of(at(at(table, k), "human_name"@)) {
                    Some(n) => Some(prev.push(n)),
                    None => None,
                },
            },
        }
    }
}

pub open spec fn bundle_of(page: Json) -> Option<Json> {
    page.field("bundleData"@)
}

pub open spec fn tiers_of(page: Json) -> Option<Seq<Json>> {
    items_of(at(bundle_of(page), "tier_order"@))
}

/// Key of the highest tier: the first of `tier_order`.
pub open spec fn highest_tier(page: Json) -> Option<Seq<char>> {
    match tiers_of(page) {
        Some(t) => if t.len() > 0 { t[0].text() } else { None },
        None => None,
    }
}

/// Key of the lowest tier: the last of `tier_order`.
pub open spec fn lowest_tier(page: Json) -> Option<Seq<char>> {
    match tiers_of(page) {
        Some(t) => if t.len() > 0 { t.last().text() } else { None },
        None => None,
    }
}

pub open spec fn tier_price(page: Json, tier: Seq<char>) -> Option<i32> {
    amount_of(
        at(at(at(at(bundle_of(page), "tier_pricing_data"@), tier), "price|money"@), "amount"@),
    )
}

pub open spec fn tier_items(page: Json, tier: Seq<char>) -> Option<Seq<Seq<char>>> {
    match items_of(at(at(at(bundle_of(page), "tier_display_data"@), tier), "tier_item_machine_names"@)) {
        Some(keys) => resolve_names(keys, at(bundle_of(page), "tier_item_data"@)),
        None => None,
    }
}

pub open spec fn charities(page: Json) -> Option<Seq<Seq<char>>> {
    let data = at(bundle_of(page), "charity_data"@);
    match items_of(at(data, "charity_item_machine_names"@)) {
        Some(keys) => resolve_names(keys, at(data, "charity_items"@)),
        None => None,
    }
}

pub open spec fn basic_of(page: Json) -> Option<Json> {
    at(bundle_of(page), "basic_data"@)
}

pub open spec fn entry_text(entry: Json, key: Seq<char>) -> Option<Seq<char>> {
    entry.field(key).unwrap_or(Json::Null).text()
}

/// The instant of a catalog timestamp, which carries no zone and is read as UTC.
pub open spec fn entry_time(entry: Json, key: Seq<char>) -> Option<(i64, u32)> {
    match entry_text(entry, key) {
        Some(t) => utc_time_of(t.push('Z')),
        None => None,
    }
}

pub open spec fn detail_url_of(entry: Json) -> Option<Seq<char>> {
    match entry_text(entry, "product_url"@) {
        Some(rel) => Some(SITE_BASE_URL@ + rel),
        None => None,
    }
}

/// Every field that extraction needs is there, in the shape it needs.
pub open spec fn extractable(entry: Json, page: Json) -> bool {
    &&& detail_url_of(entry) is Some
    &&& highest_tier(page) is Some
    &&& lowest_tier(page) is Some
    &&& tier_price(page, highest_tier(page)->0) is Some
    &&& tier_price(page, lowest_tier(page)->0) is Some
    &&& tier_items(page, highest_tier(page)->0) is Some
    &&& charities(page) is Some
    &&& entry_text(entry, "author"@) is Some
    &&& entry_text(entry, "tile_name"@) is Some
    &&& entry_text(entry, "machine_name"@) is Some
    &&& text_of(at(basic_of(page), "media_type"@)) is Some
    &&& entry_time(entry, "start_date|datetime"@) is Some
    &&& entry_time(entry, "end_date|datetime"@) is Some
    &&& text_of(at(basic_of(page), "description"@)) is Some
    &&& entry_text(entry, "detailed_marketing_blurb"@) is Some
    &&& entry_text(entry, "marketing_blurb"@) is Some
    &&& entry_text(entry, "short_marketing_blurb"@) is Some
    &&& amount_of(at(at(basic_of(page), "msrp|money"@), "amount"@)) is Some
    &&& entry_text(entry, "tile_logo"@) is Some
    &&& entry_text(entry, "high_res_tile_image"@) is Some
}

pub open spec fn time_is(t: UtcTime, v: Option<(i64, u32)>) -> bool {
    v == Some((t.secs, t.nanos))
}

/// `p` holds the facts of `entry` and `page`.
pub open spec fn extracted(entry: Json, page: Json, p: Product) -> bool {
    &&& Some(p.product_url@) == detail_url_of(entry)
    &&& Some(p.high_price) == tier_price(page, highest_tier(page)->0)
    &&& Some(p.low_price) == tier_price(page, lowest_tier(page)->0)
    &&& Some(views(p.item_names@)) == tier_items(page, highest_tier(page)->0)
    &&& Some(views(p.charity_names@)) == charities(page)
    &&& Some(p.author@) == entry_text(entry, "author"@)
    &&& Some(p.name@) == entry_text(entry, "tile_name"@)
    &&& Some(p.machine_name@) == entry_text(entry, "machine_name"@)
    &&& p.media_type == media_type_of(text_of(at(basic_of(page), "media_type"@))->0)
    &&& time_is(p.start_time, entry_time(entry, "start_date|datetime"@))
    &&& time_is(p.end_time, entry_time(entry, "end_date|datetime"@))
    &&& Some(p.description@) == text_of(at(basic_of(page), "description"@))
    &&& Some(p.detail_text@) == entry_text(entry, "detailed_marketing_blurb"@)
    &&& Some(p.blurb@) == entry_text(entry, "marketing_blurb"@)
    &&& Some(p.short_blurb@) == entry_text(entry, "short_marketing_blurb"@)
    &&& Some(p.msrp) == amount_of(at(at(basic_of(page), "msrp|money"@), "amount"@))
    &&& Some(p.logo_url@) == entry_text(entry, "tile_logo"@)
    &&& Some(p.thumbnail_url@) == entry_text(entry, "high_res_tile_image"@)
}

fn missing<T>(what: &str) -> (r: Result<T, ExtractError>)
    ensures
        r is Err,
        r->Err_0.what@ == what@,
{
    Err(ExtractError { what: string_of(&chars_of(what)) })
}

fn at_exec<'a>(j: Option<&'a Json>, key: &str) -> (r: Option<&'a Json>)
    ensures
        opt(r) == at(opt(j), key@),
{
    match j {
        Some(v) => v.get(key),
        None => None,
    }
}

fn text_exec(j: Option<&Json>, what: &str) -> (r: Result<String, ExtractError>)
    ensures
        r is Ok <==> text_of(opt(j)) is Some,
        r is Ok ==> r->Ok_0@ == text_of(opt(j))->0,
        r is Err ==> r->Err_0.what@ == what@,
{
    match j {
        Some(v) => match v.as_str() {
            Some(s) => Ok(string_of(&chars_of(s.as_str()))),
            None => missing(what),
        },
        None => missing(what),
    }
}

fn items_exec<'a>(j: Option<&'a Json>, what: &str) -> (r: Result<&'a Vec<Json>, ExtractError>)
    ensures
        r is Ok <==> items_of(opt(j)) is Some,
        r is Ok ==> r->Ok_0@ == items_of(opt(j))->0,
        r is Err ==> r->Err_0.what@ == what@,
{
    match j {
        Some(v) => match v.as_array() {
            Some(a) => Ok(a),
            None => missing(what),
        },
        None => missing(what),
    }
}

fn amount_exec(j: Option<&Json>, what: &str) -> (r: Result<i32, ExtractError>)
    ensures
        r is Ok <==> amount_of(opt(j)) is Some,
        r is Ok ==> Some(r->Ok_0) == amount_of(opt(j)),
        r is Err ==> r->Err_0.what@ == what@,
{
    match j {
        Some(v) => match v.as_number() {
            Some(t) => match parse_amount(&chars_of(t.as_str())) {
                Some(a) => Ok(a),
                None => missing(what),
            },
            None => missing(what),
        },
        None => missing(what),
    }
}

fn entry_text_exec(entry: &Json, key: &str) -> (r: Result<String, ExtractError>)
    ensures
        r is Ok <==> entry_text(*entry, key@) is Some,
        r is Ok ==> r->Ok_0@ == entry_text(*entry, key@)->0,
        r is Err ==> r->Err_0.what@ == key@,
{
    text_exec(entry.get(key), key)
}

fn entry_time_exec(entry: &Json, key: &str) -> (r: Result<UtcTime, ExtractError>)
    ensures
        r is Ok <==> entry_time(*entry, key@) is Some,
        r is Ok ==> time_is(r->Ok_0, entry_time(*entry, key@)),
        r is Err ==> r->Err_0.what@ == key@,
{
    let t = entry_text_exec(entry, key)?;
    let mut v = chars_of(t.as_str());
    v.push('Z');
    let z = string_of(&v);
    match parse_utc(z.as_str()) {
        Some((secs, nanos)) => Ok(UtcTime { secs, nanos }),
        None => missing(key),
    }
}

/// Looks each machine name of `keys` up in `table` and gives the human names.
fn resolve_names_exec(keys: &Vec<Json>, table: Option<&Json>, what: &str) -> (r: Result<
    Vec<String>,
    ExtractError,
>)
    ensures
        r is Ok <==> resolve_names(keys@, opt(table)) is Some,
        r is Ok ==> Some(views(r->Ok_0@)) == resolve_names(keys@, opt(table)),
        r is Err ==> r->Err_0.what@ == what@,
{
    let mut out: Vec<String> = Vec::new();
    let mut i: usize = 0;
    assert(keys@.take(0) =~= Seq::<Json>::empty());
    assert(views(out@) =~= Seq::<Seq<char>>::empty());
    while i < keys.len()
        invariant
            i <= keys.len(),
            resolve_names(keys@.take(i as int), opt(table)) == Some(views(out@)),
        decreases keys.len() - i,
    {
        let ghost prev = keys@.take(i as int);
        assert(keys@.take(i + 1).drop_last() =~= prev);
        assert(keys@.take(i + 1).last() == keys@[i as int]);
        let key = match keys[i].as_str() {
            Some(k) => k,
            None => {
                proof { lemma_resolve_prefix(keys@, opt(table), i + 1); }
                return missing(what);
            },
        };
        let name = match text_exec(at_exec(at_exec(table, key.as_str()), "human_name"), what) {
            Ok(n) => n,
            Err(e) => {
                proof { lemma_resolve_prefix(keys@, opt(table), i + 1); }
                return Err(e);
            },
        };
        let ghost before = out@;
        out.push(name);
        i = i + 1;
        assert(views(out@) =~= views(before).push(out@.last()@));
    }
    assert(keys@.take(i as int) =~= keys@);
    Ok(out)
}

/// Where a prefix of `keys` does not resolve, neither does the whole.
proof fn lemma_resolve_prefix(keys: Seq<Json>, table: Option<Json>, n: int)
    requires
        0 <= n <= keys.len(),
        resolve_names(keys.take(n), table) is None,
    ensures
        resolve_names(keys, table) is None,
    decreases keys.len(),
{
    if n < keys.len() {
        assert(keys.drop_last().take(n) =~= keys.take(n));
        lemma_resolve_prefix(keys.drop_last(), table, n);
    } else {
        assert(keys.take(n) =~= keys);
    }
}

/// `a`, then `k`, then `b`: the path of a field under a key that the data gives.
fn path3(a: &str, k: &str, b: &str) -> (r: String)
    ensures
        r@ == a@ + k@ + b@,
{
    let mut v: Vec<char> = Vec::new();
    push_str(&mut v, a);
    push_str(&mut v, k);
    push_str(&mut v, b);
    string_of(&v)
}

pub open spec fn price_path(tier: Seq<char>) -> Seq<char> {
    "bundleData.tier_pricing_data."@ + tier + ".price|money.amount"@
}

pub open spec fn tier_items_path(tier: Seq<char>) -> Seq<char> {
    "bundleData.tier_display_data."@ + tier + ".tier_item_machine_names"@
}

pub open spec fn item_keys_of(page: Json, tier: Seq<char>) -> Option<Seq<Json>> {
    items_of(at(at(at(bundle_of(page), "tier_display_data"@), tier), "tier_item_machine_names"@))
}

pub open spec fn charity_keys_of(page: Json) -> Option<Seq<Json>> {
    items_of(at(at(bundle_of(page), "charity_data"@), "charity_item_machine_names"@))
}

/// The path of the first field, in extraction order, that is missing or
/// malformed: what the error of a failed extraction names.
pub open spec fn extract_error(entry: Json, page: Json) -> Seq<char> {
    let hi = highest_tier(page)->0;
    let lo = lowest_tier(page)->0;
    let basic = basic_of(page);
    if detail_url_of(entry) is None {
        "product_url"@
    } else if tiers_of(page) is None || tiers_of(page)->0.len() == 0 {
        "bundleData.tier_order"@
    } else if highest_tier(page) is None {
        "bundleData.tier_order[0]"@
    } else if lowest_tier(page) is None {
        "bundleData.tier_order[last]"@
    } else if tier_price(page, hi) is None {
        price_path(hi)
    } else if tier_price(page, lo) is None {
        price_path(lo)
    } else if item_keys_of(page, hi) is None {
        tier_items_path(hi)
    } else if tier_items(page, hi) is None {
        "bundleData.tier_item_data.*.human_name"@
    } else if charity_keys_of(page) is None {
        "bundleData.charity_data.charity_item_machine_names"@
    } else if charities(page) is None {
        "bundleData.charity_data.charity_items.*.human_name"@
    } else if entry_text(entry, "author"@) is None {
        "author"@
    } else if entry_text(entry, "tile_name"@) is None {
        "tile_name"@
    } else if entry_text(entry, "machine_name"@) is None {
        "machine_name"@
    } else if text_of(at(basic, "media_type"@)) is None {
        "bundleData.basic_data.media_type"@
    } else if entry_time(entry, "start_date|datetime"@) is None {
        "start_date|datetime"@
    } else if entry_time(entry, "end_date|datetime"@) is None {
        "end_date|datetime"@
    } else if text_of(at(basic, "description"@)) is None {
        "bundleData.basic_data.description"@
    } else if entry_text(entry, "detailed_marketing_blurb"@) is None {
        "detailed_marketing_blurb"@
    } else if entry_text(entry, "marketing_blurb"@) is None {
        "marketing_blurb"@
    } else if entry_text(entry, "short_marketing_blurb"@) is None {
        "short_marketing_blurb"@
    } else if amount_of(at(at(basic, "msrp|money"@), "amount"@)) is None {
        "bundleData.basic_data.msrp|money.amount"@
    } else if entry_text(entry, "tile_logo"@) is None {
        "tile_logo"@
    } else {
        "high_res_tile_image"@
    }
}

/// The absolute URL of a catalog entry's detail page.
pub fn detail_url(entry: &Json) -> (r: Result<String, ExtractError>)
    ensures
        r is Ok <==> detail_url_of(*entry) is Some,
        r is Ok ==> Some(r->Ok_0@) == detail_url_of(*entry),
        r is Err ==> r->Err_0.what@ == "product_url"@,
{
    let rel = entry_text_exec(entry, "product_url")?;
    let mut v: Vec<char> = Vec::new();
    push_str(&mut v, SITE_BASE_URL);
    push_str(&mut v, rel.as_str());
    Ok(string_of(&v))
}

/// Reads the page data that a detail page embeds.
pub fn page_data(html: &str) -> (r: Result<Json, ExtractError>)
    ensures
        r is Ok <==> (selected_text(html@, PAGE_DATA_SELECTOR@) is Some && json_of(
            selected_text(html@, PAGE_DATA_SELECTOR@)->0,
        ) is Some),
        r is Ok ==> json_of(selected_text(html@, PAGE_DATA_SELECTOR@)->0) == Some(r->Ok_0),
        r is Err ==> r->Err_0.what@ == (if selected_text(html@, PAGE_DATA_SELECTOR@) is None {
            "page data element"@
        } else {
            "page data JSON"@
        }),
{
    match embedded_json(html, PAGE_DATA_SELECTOR) {
        Ok(j) => Ok(j),
        Err(PageDataError::NotFound) => missing("page data element"),
        Err(PageDataError::NotJson) => missing("page data JSON"),
    }
}

impl Product {
    /// Extracts a listing's facts from its catalog entry and its detail page's
    /// data. Every field is required: a missing or malformed one fails the whole
    /// listing.
    pub fn from_json(entry: &Json, page: &Json) -> (r: Result<Product, ExtractError>)
        ensures
            r is Ok <==> extractable(*entry, *page),
            r is Ok ==> extracted(*entry, *page, r->Ok_0),
            r is Err ==> r->Err_0.what@ == extract_error(*entry, *page),
    {
        let product_url = detail_url(entry)?;
        let bundle = page.get("bundleData");
        let tiers = items_exec(at_exec(bundle, "tier_order"), "bundleData.tier_order")?;
        if tiers.len() == 0 {
            return missing("bundleData.tier_order");
        }
        let highest = match tiers[0].as_str() {
            Some(k) => k,
            None => return missing("bundleData.tier_order[0]"),
        };
        let lowest = match tiers[tiers.len() - 1].as_str() {
            Some(k) => k,
            None => return missing("bundleData.tier_order[last]"),
        };
        let pricing = at_exec(bundle, "tier_pricing_data");
        let high_path = path3("bundleData.tier_pricing_data.", highest.as_str(), ".price|money.amount");
        let high_price = amount_exec(
            at_exec(at_exec(at_exec(pricing, highest.as_str()), "price|money"), "amount"),
            high_path.as_str(),
        )?;
        let low_path = path3("bundleData.tier_pricing_data.", lowest.as_str(), ".price|money.amount");
        let low_price = amount_exec(
            at_exec(at_exec(at_exec(pricing, lowest.as_str()), "price|money"), "amount"),
            low_path.as_str(),
        )?;
        let keys_path = path3("bundleData.tier_display_data.", highest.as_str(), ".tier_item_machine_names");
        let item_keys = items_exec(
            at_exec(
                at_exec(at_exec(bundle, "tier_display_data"), highest.as_str()),
                "tier_item_machine_names",
            ),
            keys_path.as_str(),
        )?;
        let item_names = resolve_names_exec(
            item_keys,
            at_exec(bundle, "tier_item_data"),
            "bundleData.tier_item_data.*.human_name",
        )?;
        let charity = at_exec(bundle, "charity_data");
        let charity_keys = items_exec(
            at_exec(charity, "charity_item_machine_names"),
            "bundleData.charity_data.charity_item_machine_names",
        )?;
        let charity_names = resolve_names_exec(
            charity_keys,
            at_exec(charity, "charity_items"),
            "bundleData.charity_data.charity_items.*.human_name",
        )?;
        let basic = at_exec(bundle, "basic_data");
        let author = entry_text_exec(entry, "author")?;
        let name = entry_text_exec(entry, "tile_name")?;
        let machine_name = entry_text_exec(entry, "machine_name")?;
        let media = text_exec(at_exec(basic, "media_type"), "bundleData.basic_data.media_type")?;
        let start_time = entry_time_exec(entry, "start_date|datetime")?;
        let end_time = entry_time_exec(entry, "end_date|datetime")?;
        let description = text_exec(at_exec(basic, "description"), "bundleData.basic_data.description")?;
        let detail_text = entry_text_exec(entry, "detailed_marketing_blurb")?;
        let blurb = entry_text_exec(entry, "marketing_blurb")?;
        let short_blurb = entry_text_exec(entry, "short_marketing_blurb")?;
        let msrp = amount_exec(
            at_exec(at_exec(basic, "msrp|money"), "amount"),
            "bundleData.basic_data.msrp|money.amount",
        )?;
        let logo_url = entry_text_exec(entry, "tile_logo")?;
        let thumbnail_url = entry_text_exec(entry, "high_res_tile_image")?;
        Ok(
            Product {
                author,
                name,
                machine_name,
                media_type: MediaType::from_str(media.as_str()),
                start_time,
                end_time,
                description,
                detail_text,
                blurb,
                short_blurb,
                msrp,
                high_price,
                low_price,
                product_url,
                logo_url,
                thumbnail_url,
                item_names,
                charity_names,
            },
        )
    }

    /// Extracts a listing's facts from its catalog entry and the HTML of its
    /// detail page.
    pub fn from_page(entry: &Json, html: &str) -> (r: Result<Product, ExtractError>)
        ensures
            r is Ok <==> (selected_text(html@, PAGE_DATA_SELECTOR@) is Some && json_of(
                selected_text(html@, PAGE_DATA_SELECTOR@)->0,
            ) is Some && extractable(
                *entry,
                json_of(selected_text(html@, PAGE_DATA_SELECTOR@)->0)->0,
            )),
            r is Ok ==> extracted(
                *entry,
                json_of(selected_text(html@, PAGE_DATA_SELECTOR@)->0)->0,
                r->Ok_0,
            ),
            r is Err ==> r->Err_0.what@ == (if selected_text(html@, PAGE_DATA_SELECTOR@) is None {
                "page data element"@
            } else if json_of(selected_text(html@, PAGE_DATA_SELECTOR@)->0) is None {
                "page data JSON"@
            } else {
                extract_error(*entry, json_of(selected_text(html@, PAGE_DATA_SELECTOR@)->0)->0)
            }),
    {
        let page = page_data(html)?;
        Product::from_json(entry, &page)
    }
}

/// With a single tier, the highest and the lowest tier are one: the listing
/// has one price, and its items are those of that tier.
pub proof fn lemma_single_tier(entry: Json, page: Json, p: Product)
    requires
        tiers_of(page) is Some,
        tiers_of(page)->0.len() == 1,
        extracted(entry, page, p),
    ensures
        p.low_price == p.high_price,
        Some(views(p.item_names@)) == tier_items(page, lowest_tier(page)->0),
{
    let t = tiers_of(page)->0;
    assert(t[0] == t.last());
}

/// Selector of the script element that holds the landing page's data.
pub const LANDING_DATA_SELECTOR: &'static str = "script#landingPage-json-data";

/// One of the catalog's listing groups.
#[derive(Debug, Clone, Copy, PartialEq, Eq, Structural)]
pub enum Category {
    Games,
    Books,
    Software,
}

pub open spec fn category_key(c: Category) -> Seq<char> {
    match c {
        Category::Games => "games"@,
        Category::Books => "books"@,
        Category::Software => "software"@,
    }
}

/// The catalog entries of `category`: `data.<category>.mosaic[0].products`.
pub open spec fn catalog_of(landing: Json, category: Category) -> Option<Seq<Json>> {
    match items_of(at(at(landing.field("data"@), category_key(category)), "mosaic"@)) {
        Some(m) => if m.len() > 0 {
            m[0].field("products"@).unwrap_or(Json::Null).items()
        } else {
            None
        },
        None => None,
    }
}

/// The path of a category's mosaic list.
pub open spec fn mosaic_path(c: Category) -> Seq<char> {
    "data."@ + category_key(c) + ".mosaic"@
}

/// The path of a category's catalog entries.
pub open spec fn products_path(c: Category) -> Seq<char> {
    "data."@ + category_key(c) + ".mosaic[0].products"@
}

/// The catalog entries of one category in the landing page's data.
pub fn catalog(landing: &Json, category: Category) -> (r: Result<&Vec<Json>, ExtractError>)
    ensures
        r is Ok <==> catalog_of(*landing, category) is Some,
        r is Ok ==> r->Ok_0@ == catalog_of(*landing, category)->0,
        r is Err ==> r->Err_0.what@ == (if items_of(
            at(at(landing.field("data"@), category_key(category)), "mosaic"@),
        ) is None {
            mosaic_path(category)
        } else {
            products_path(category)
        }),
{
    let key = match category {
        Category::Games => "games",
        Category::Books => "books",
        Category::Software => "software",
    };
    let mosaic_at = path3("data.", key, ".mosaic");
    let products_at = path3("data.", key, ".mosaic[0].products");
    let mosaic = items_exec(
        at_exec(at_exec(landing.get("data"), key), "mosaic"),
        mosaic_at.as_str(),
    )?;
    if mosaic.len() == 0 {
        return missing(products_at.as_str());
    }
    match mosaic[0].get("products") {
        Some(p) => match p.as_array() {
            Some(a) => Ok(a),
            None => missing(products_at.as_str()),
        },
        None => missing(products_at.as_str()),
    }
}

} // verus!
