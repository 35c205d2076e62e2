use bundle_watch::embed::{bullet_list, offer_ends, pricing, EmbedField, EmbedMessage, ACCENT_COLOR};
use bundle_watch::product::{MediaType, Product, UtcTime};
use bundle_watch::text::parse_amount;

fn product(items: Vec<&str>, charities: Vec<&str>, low: i32, high: i32, msrp: i32) -> Product {
    Product {
        author: "Humble".to_string(),
        name: "Big Bundle".to_string(),
        machine_name: "big_bundle".to_string(),
        media_type: MediaType::Game,
        start_time: UtcTime { secs: 1_700_000_000, nanos: 0 },
        end_time: UtcTime { secs: 1_700_500_000, nanos: 0 },
        description: "desc".to_string(),
        detail_text: "details".to_string(),
        blurb: "blurb".to_string(),
        short_blurb: "short".to_string(),
        msrp,
        high_price: high,
        low_price: low,
        product_url: "https://www.humblebundle.com/games/big".to_string(),
        logo_url: "logo.png".to_string(),
        thumbnail_url: "thumb.png".to_string(),
        item_names: items.into_iter().map(|s| s.to_string()).collect(),
        charity_names: charities.into_iter().map(|s| s.to_string()).collect(),
    }
}

#[test]
fn pricing_single_price() {
    assert_eq!(pricing(10, 10, 15), "10$ (MSRP 15$)");
}

#[test]
fn pricing_price_range() {
    assert_eq!(pricing(8, 20, 25), "8$ ~ 20$ (MSRP 25$)");
}

#[test]
fn pricing_negative_and_extreme_values() {
    assert_eq!(pricing(-3, -3, i32::MAX), "-3$ (MSRP 2147483647$)");
    assert_eq!(pricing(i32::MIN, 0, 0), "-2147483648$ ~ 0$ (MSRP 0$)");
}

#[test]
fn offer_ends_token() {
    assert_eq!(offer_ends(1_700_500_000), "<t:1700500000:R>");
    assert_eq!(offer_ends(-5), "<t:-5:R>");
}

#[test]
fn bullet_list_short() {
    let names = vec!["Alpha".to_string(), "Beta".to_string()];
    assert_eq!(bullet_list(&names), "- Alpha\n- Beta");
}

#[test]
fn bullet_list_trims_trailing_whitespace() {
    let names = vec!["Alpha ".to_string(), "Beta  ".to_string()];
    assert_eq!(bullet_list(&names), "- Alpha \n- Beta");
}

#[test]
fn bullet_list_cut_at_limit() {
    // each line "- " + 20 chars + "\n" is 23 characters: 44 lines make 1012,
    // the 45th would bring the text to 1035
    let name = "x".repeat(20);
    let names: Vec<String> = (0..100).map(|_| name.clone()).collect();
    let mut expected = String::new();
    for _ in 0..44 {
        expected.push_str(&format!("- {name}\n"));
    }
    expected.push_str("- ...");
    let out = bullet_list(&names);
    assert_eq!(out, expected);
    assert_eq!(out.chars().count(), 44 * 23 + 5);
}

#[test]
fn bullet_list_cut_when_reaching_limit_exactly() {
    // 1024 characters exactly is already too many: the last line is replaced
    let first = "a".repeat(1000 - 3);
    let second = "b".repeat(24 - 3);
    let names = vec![first.clone(), second];
    assert_eq!(bullet_list(&names), format!("- {first}\n- ..."));
}

#[test]
fn bullet_list_first_item_too_long() {
    let names = vec!["z".repeat(2000)];
    assert_eq!(bullet_list(&names), "- ...");
}

#[test]
fn bullet_list_counts_characters_not_bytes() {
    // 300 lines of "- é\n" are 1200 characters; the 256th line would reach 1024
    let names: Vec<String> = (0..300).map(|_| "é".to_string()).collect();
    let out = bullet_list(&names);
    assert_eq!(out.chars().count(), 255 * 4 + 5);
    assert!(out.ends_with("- é\n- ..."));
}

#[test]
fn embed_field_new_keeps_values() {
    let f = EmbedField::new("Pricing", "1$".to_string(), true);
    assert_eq!(f.name, "Pricing");
    assert_eq!(f.value, "1$");
    assert!(f.inline);
}

#[test]
fn embed_from_product_all_fields() {
    let p = product(vec!["Game A", "Game B"], vec!["Charity"], 1, 12, 150);
    let m = EmbedMessage::from_product(p);
    assert_eq!(m.title, "Big Bundle");
    assert_eq!(m.description, "details");
    assert_eq!(m.url, "https://www.humblebundle.com/games/big");
    assert_eq!(m.timestamp, UtcTime { secs: 1_700_000_000, nanos: 0 });
    assert_eq!(m.image_url, "thumb.png");
    assert_eq!(m.footer, "Humble");
    let f: Vec<(String, String, bool)> =
        m.fields.into_iter().map(|f| (f.name, f.value, f.inline)).collect();
    assert_eq!(
        f,
        vec![
            ("Pricing".to_string(), "1$ ~ 12$ (MSRP 150$)".to_string(), true),
            ("Offer ends".to_string(), "<t:1700500000:R>".to_string(), true),
            ("Items".to_string(), "- Game A\n- Game B".to_string(), false),
            ("Charities".to_string(), "- Charity".to_string(), false),
        ]
    );
    assert_eq!(ACCENT_COLOR, 13313833);
}

#[test]
fn embed_from_product_without_lists() {
    let p = product(vec![], vec![], 5, 5, 5);
    let m = EmbedMessage::from_product(p);
    let names: Vec<String> = m.fields.into_iter().map(|f| f.name).collect();
    assert_eq!(names, vec!["Pricing".to_string(), "Offer ends".to_string()]);
}

#[test]
fn amount_rounding() {
    let amount = |s: &str| parse_amount(&s.chars().collect());
    assert_eq!(amount("14.99"), Some(15));
    assert_eq!(amount("14.5"), Some(15));
    assert_eq!(amount("14.49"), Some(14));
    assert_eq!(amount("-2.5"), Some(-3));
    assert_eq!(amount("30"), Some(30));
    assert_eq!(amount("1.0"), Some(1));
    assert_eq!(amount("99999999999"), Some(i32::MAX));
    assert_eq!(amount("-99999999999.9"), Some(i32::MIN));
    assert_eq!(amount("1e3"), None);
    assert_eq!(amount(""), None);
    assert_eq!(amount("1."), None);
}

#[test]
fn media_type_names() {
    assert_eq!(MediaType::from_str("game"), MediaType::Game);
    assert_eq!(MediaType::from_str("ebook"), MediaType::EBook);
    assert_eq!(MediaType::from_str("software"), MediaType::Software);
    assert_eq!(MediaType::from_str("comic"), MediaType::Unknown);
    assert_eq!(MediaType::from_str("Game"), MediaType::Unknown);
}
