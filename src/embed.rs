//! The announcement of a product: a titled message with a fixed set of fields,
//! each held under the chat platform's size limit.

use vstd::prelude::*;
use crate::product::{Product, UtcTime, views};
use crate::text::{chars_of, int_text, push_all, push_int, push_str, string_of, trim_end, trim_end_in_place};

verus! {

/// Accent color of every announcement.
pub const ACCENT_COLOR: u32 = 13313833;

/// A list field is cut before its text reaches this many characters.
pub const FIELD_LIMIT: usize = 1024;

/// One named field of an announcement.
#[derive(Debug)]
pub struct EmbedField {
    pub name: String,
    pub value: String,
    pub inline: bool,
}

impl EmbedField {
    pub fn new(name: &str, value: String, inline: bool) -> (r: EmbedField)
        ensures
            r.name@ == name@,
            r.value == value,
            r.inline == inline,
    {
        EmbedField { name: string_of(&chars_of(name)), value, inline }
    }
}

/// An announcement of a product.
#[derive(Debug)]
pub struct EmbedMessage {
    pub title: String,
    pub description: String,
    pub url: String,
    pub timestamp: UtcTime,
    pub image_url: String,
    pub footer: String,
    pub fields: Vec<EmbedField>,
}

/// `"<low>$ (MSRP <msrp>$)"` for a single price, else `"<low>$ ~ <high>$ (MSRP <msrp>$)"`.
pub open spec fn pricing_text(low: i32, high: i32, msrp: i32) -> Seq<char> {
    if low == high {
        int_text(low as int) + "$ (MSRP "@ + int_text(msrp as int) + "$)"@
    } else {
        int_text(low as int) + "$ ~ "@ + int_text(high as int) + "$ (MSRP "@ + int_text(
            msrp as int,
        ) + "$)"@
    }
}

/// The chat platform's relative-time token for the instant `secs`.
pub open spec fn offer_ends_text(secs: i64) -> Seq<char> {
    "<t:"@ + int_text(secs as int) + ":R>"@
}

/// One line of a list field.
pub open spec fn bullet(name: Seq<char>) -> Seq<char> {
    "- "@ + name + "\n"@
}

/// Appends the lines of `names` to `acc` one by one; where a line would bring
/// the text to the limit, appends `"- ..."` instead and stops.
pub open spec fn bullets_from(names: Seq<Seq<char>>, acc: Seq<char>) -> Seq<char>
    decreases names.len(),
{
    if names.len() == 0 {
        acc
    } else if acc.len() + bullet(names[0]).len() >= FIELD_LIMIT {
        acc + "- ..."@
    } else {
        bullets_from(names.skip(1), acc + bullet(names[0]))
    }
}

/// The text of a list field: the cut list without trailing whitespace.
pub open spec fn bullet_block(names: Seq<Seq<char>>) -> Seq<char> {
    trim_end(bullets_from(names, seq![]))
}

pub open spec fn field_view(f: EmbedField) -> (Seq<char>, Seq<char>, bool) {
    (f.name@, f.value@, f.inline)
}

/// The fields of a product's announcement, in order.
pub open spec fn fields_of(p: Product) -> Seq<(Seq<char>, Seq<char>, bool)> {
    let items = views(p.item_names@);
    let charities = views(p.charity_names@);
    seq![
        ("Pricing"@, pricing_text(p.low_price, p.high_price, p.msrp), true),
        ("Offer ends"@, offer_ends_text(p.end_time.secs), true),
    ] + (if items.len() > 0 {
        seq![("Items"@, bullet_block(items), false)]
    } else {
        seq![]
    }) + (if charities.len() > 0 {
        seq![("Charities"@, bullet_block(charities), false)]
    } else {
        seq![]
    })
}

/// The pricing field's text.
pub fn pricing(low: i32, high: i32, msrp: i32) -> (r: String)
    ensures
        r@ == pricing_text(low, high, msrp),
{
    let mut v: Vec<char> = Vec::new();
    push_int(&mut v, low as i64);
    if low != high {
        push_str(&mut v, "$ ~ ");
        push_int(&mut v, high as i64);
    }
    push_str(&mut v, "$ (MSRP ");
    push_int(&mut v, msrp as i64);
    push_str(&mut v, "$)");
    string_of(&v)
}

/// The offer-ends field's text.
pub fn offer_ends(secs: i64) -> (r: String)
    ensures
        r@ == offer_ends_text(secs),
{
    let mut v: Vec<char> = Vec::new();
    push_str(&mut v, "<t:");
    push_int(&mut v, secs);
    push_str(&mut v, ":R>");
    string_of(&v)
}

/// The text of a list field over `names`.
pub fn bullet_list(names: &Vec<String>) -> (r: String)
    ensures
        r@ == bullet_block(views(names@)),
{
    let ghost all = views(names@);
    let mut acc: Vec<char> = Vec::new();
    let mut i: usize = 0;
    assert(all.skip(0) =~= all);
    while i < names.len()
        invariant
            i <= names.len(),
            all == views(names@),
            acc.len() < FIELD_LIMIT,
            bullets_from(all.skip(i as int), acc@) == bullets_from(all, seq![]),
        decreases names.len() - i,
    {
        let ghost rest = all.skip(i as int);
        assert(rest[0] == names@[i as int]@);
        let mut md: Vec<char> = Vec::new();
        push_str(&mut md, "- ");
        push_str(&mut md, names[i].as_str());
        push_str(&mut md, "\n");
        assert(md@ == bullet(rest[0]));
        if md.len() >= FIELD_LIMIT - acc.len() {
            push_str(&mut acc, "- ...");
            trim_end_in_place(&mut acc);
            return string_of(&acc);
        }
        push_all(&mut acc, &md);
        assert(rest.skip(1) =~= all.skip(i + 1));
        i = i + 1;
    }
    assert(all.skip(i as int).len() == 0);
    trim_end_in_place(&mut acc);
    string_of(&acc)
}

impl EmbedMessage {
    /// The announcement of `product`.
    pub fn from_product(product: Product) -> (r: EmbedMessage)
        ensures
            r.title == product.name,
            r.description == product.detail_text,
            r.url == product.product_url,
            r.timestamp == product.start_time,
            r.image_url == product.thumbnail_url,
            r.footer == product.author,
            r.fields@.map_values(|f: EmbedField| field_view(f)) == fields_of(product),
    {
        let mut fields: Vec<EmbedField> = Vec::new();
        fields.push(
            EmbedField::new(
                "Pricing",
                pricing(product.low_price, product.high_price, product.msrp),
                true,
            ),
        );
        fields.push(EmbedField::new("Offer ends", offer_ends(product.end_time.secs), true));
        let ghost base = fields@.map_values(|f: EmbedField| field_view(f));
        let ghost items = views(product.item_names@);
        let ghost charities = views(product.charity_names@);
        if product.item_names.len() > 0 {
            fields.push(EmbedField::new("Items", bullet_list(&product.item_names), false));
        }
        let ghost mid = fields@.map_values(|f: EmbedField| field_view(f));
        assert(mid =~= base + (if items.len() > 0 {
            seq![("Items"@, bullet_block(items), false)]
        } else {
            seq![]
        }));
        if product.charity_names.len() > 0 {
            fields.push(EmbedField::new("Charities", bullet_list(&product.charity_names), false));
        }
        let ghost fin = fields@.map_values(|f: EmbedField| field_view(f));
        assert(fin =~= mid + (if charities.len() > 0 {
            seq![("Charities"@, bullet_block(charities), false)]
        } else {
            seq![]
        }));
        assert(fin =~= fields_of(product));
        EmbedMessage {
            title: product.name,
            description: product.detail_text,
            url: product.product_url,
            timestamp: product.start_time,
            image_url: product.thumbnail_url,
            footer: product.author,
            fields,
        }
    }
}

/// The lines of all of `names`, uncut.
pub open spec fn bullets_concat(names: Seq<Seq<char>>) -> Seq<char>
    decreases names.len(),
{
    if names.len() == 0 {
        seq![]
    } else {
        bullets_concat(names.drop_last()) + bullet(names.last())
    }
}

proof fn lemma_cut_from(names: Seq<Seq<char>>, k: int, i: int)
    requires
        0 <= i <= k < names.len(),
        bullets_concat(names.take(k + 1)).len() >= FIELD_LIMIT,
        forall|j: int| 0 <= j < k ==> #[trigger] bullets_concat(names.take(j + 1)).len() < FIELD_LIMIT,
    ensures
        bullets_from(names.skip(i), bullets_concat(names.take(i))) == bullets_concat(names.take(k))
            + "- ..."@,
    decreases k - i,
{
    let acc = bullets_concat(names.take(i));
    let rest = names.skip(i);
    assert(rest[0] == names[i]);
    assert(names.take(i + 1).drop_last() =~= names.take(i));
    assert(names.take(i + 1).last() == names[i]);
    assert(bullets_concat(names.take(i + 1)) == acc + bullet(names[i]));
    if i < k {
        assert(bullets_concat(names.take(i + 1)).len() < FIELD_LIMIT);
        assert(rest.skip(1) =~= names.skip(i + 1));
        lemma_cut_from(names, k, i + 1);
    }
}

proof fn lemma_uncut_from(names: Seq<Seq<char>>, i: int)
    requires
        0 <= i <= names.len(),
        forall|j: int| 0 <= j < names.len() ==> #[trigger] bullets_concat(names.take(j + 1)).len() < FIELD_LIMIT,
    ensures
        bullets_from(names.skip(i), bullets_concat(names.take(i))) == bullets_concat(names),
    decreases names.len() - i,
{
    if i == names.len() {
        assert(names.take(i) =~= names);
        assert(names.skip(i).len() == 0);
    } else {
        let rest = names.skip(i);
        assert(rest[0] == names[i]);
        assert(names.take(i + 1).drop_last() =~= names.take(i));
        assert(names.take(i + 1).last() == names[i]);
        assert(rest.skip(1) =~= names.skip(i + 1));
        lemma_uncut_from(names, i + 1);
    }
}

/// A list field is cut at the first item whose line would bring the text to
/// the limit: it then holds the lines of the items before it, then `"- ..."`,
/// without trailing whitespace.
pub proof fn lemma_cut_list(names: Seq<Seq<char>>, k: int)
    requires
        0 <= k < names.len(),
        bullets_concat(names.take(k + 1)).len() >= FIELD_LIMIT,
        forall|j: int| 0 <= j < k ==> #[trigger] bullets_concat(names.take(j + 1)).len() < FIELD_LIMIT,
    ensures
        bullet_block(names) == trim_end(bullets_concat(names.take(k)) + "- ..."@),
{
    lemma_cut_from(names, k, 0);
    assert(names.skip(0) =~= names);
    assert(names.take(0) =~= Seq::<Seq<char>>::empty());
}

/// A list field whose lines all stay under the limit holds every line,
/// without trailing whitespace.
pub proof fn lemma_uncut_list(names: Seq<Seq<char>>)
    requires
        forall|j: int| 0 <= j < names.len() ==> #[trigger] bullets_concat(names.take(j + 1)).len() < FIELD_LIMIT,
    ensures
        bullet_block(names) == trim_end(bullets_concat(names)),
{
    lemma_uncut_from(names, 0);
    assert(names.skip(0) =~= names);
    assert(names.take(0) =~= Seq::<Seq<char>>::empty());
}

} // verus!
