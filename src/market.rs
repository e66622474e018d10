use vstd::prelude::*;
use crate::json::{as_str_spec, deref_opt, get_spec, str_member, Json, JsonNumber};
use crate::number::{decimal, i64_text, is_float_literal, is_float_literal_text, signed_decimal, u64_text};

verus! {

/// The canonical market record.
///
/// Prices and volumes are kept as decimal text that std's float parser
/// accepts; times are microseconds since the Unix epoch, UTC.
pub struct Market {
    pub id: String,
    pub title: String,
    pub description: Option<String>,
    pub current_price: Option<String>,
    pub volume: Option<String>,
    pub end_date: Option<String>,
    pub discovered_at: Option<i64>,
    pub updated_at: Option<i64>,
}

pub struct MarketView {
    pub id: Seq<char>,
    pub title: Seq<char>,
    pub description: Option<Seq<char>>,
    pub current_price: Option<Seq<char>>,
    pub volume: Option<Seq<char>>,
    pub end_date: Option<Seq<char>>,
    pub discovered_at: Option<i64>,
    pub updated_at: Option<i64>,
}

pub open spec fn opt_view(o: Option<String>) -> Option<Seq<char>> {
    match o {
        Some(s) => Some(s@),
        None => None,
    }
}

impl View for Market {
    type V = MarketView;

    open spec fn view(&self) -> MarketView {
        MarketView {
            id: self.id@,
            title: self.title@,
            description: opt_view(self.description),
            current_price: opt_view(self.current_price),
            volume: opt_view(self.volume),
            end_date: opt_view(self.end_date),
            discovered_at: self.discovered_at,
            updated_at: self.updated_at,
        }
    }
}

/// Why a single record could not be read.
#[derive(Debug, PartialEq, Eq, Structural)]
pub enum ParseError {
    /// None of the identity members holds a usable value.
    MissingId,
}

/// Decimal text of a number.
pub open spec fn number_text(n: JsonNumber) -> Seq<char> {
    match n {
        JsonNumber::PosInt(u) => decimal(u as nat),
        JsonNumber::NegInt(i) => signed_decimal(i as int),
        JsonNumber::Float(t) => t@,
    }
}

/// A number value as decimal text.
pub open spec fn as_number_spec(v: Json) -> Option<Seq<char>> {
    match v {
        Json::Number(n) => Some(number_text(n)),
        _ => None,
    }
}

/// A string, or an integer written in decimal.
pub open spec fn id_value(v: Json) -> Option<Seq<char>> {
    match v {
        Json::Str(s) => Some(s@),
        Json::Number(JsonNumber::PosInt(u)) => Some(decimal(u as nat)),
        Json::Number(JsonNumber::NegInt(i)) => Some(signed_decimal(i as int)),
        _ => None,
    }
}

/// A number, or a string that reads as one.
pub open spec fn volume_value(v: Json) -> Option<Seq<char>> {
    match v {
        Json::Number(n) => Some(number_text(n)),
        Json::Str(s) => if is_float_literal(s@) { Some(s@) } else { None },
        _ => None,
    }
}

pub open spec fn or_else<T>(a: Option<T>, b: Option<T>) -> Option<T> {
    if a is Some { a } else { b }
}

pub open spec fn opt_str(v: Option<Json>) -> Option<Seq<char>> {
    match v {
        Some(j) => as_str_spec(j),
        None => None,
    }
}

pub open spec fn opt_number(v: Option<Json>) -> Option<Seq<char>> {
    match v {
        Some(j) => as_number_spec(j),
        None => None,
    }
}

pub open spec fn opt_id(v: Option<Json>) -> Option<Seq<char>> {
    match v {
        Some(j) => id_value(j),
        None => None,
    }
}

pub open spec fn opt_volume(v: Option<Json>) -> Option<Seq<char>> {
    match v {
        Some(j) => volume_value(j),
        None => None,
    }
}

/// The identity: a usable `id`, else the first string among `slug`,
/// `marketId` and `market_slug`.
pub open spec fn identity_of(j: Json) -> Option<Seq<char>> {
    or_else(opt_id(get_spec(j, "id"@)),
    or_else(str_member(j, "slug"@),
    or_else(str_member(j, "marketId"@), str_member(j, "market_slug"@))))
}

pub open spec fn has_identity(j: Json) -> bool {
    identity_of(j) is Some
}

/// The first string among `question`, `title` and `name`.
pub open spec fn title_of(j: Json) -> Option<Seq<char>> {
    or_else(str_member(j, "question"@), or_else(str_member(j, "title"@), str_member(j, "name"@)))
}

/// The first string among `description` and `descriptionText`.
pub open spec fn description_of(j: Json) -> Option<Seq<char>> {
    or_else(str_member(j, "description"@), str_member(j, "descriptionText"@))
}

/// The `price` of the first element of a `tokens` array, if it is a number.
pub open spec fn token_price_of(j: Json) -> Option<Seq<char>> {
    match get_spec(j, "tokens"@) {
        Some(Json::Array(a)) => if a@.len() > 0 {
            opt_number(get_spec(a@[0], "price"@))
        } else {
            None
        },
        _ => None,
    }
}

/// The first number among the token price, `currentPrice`, `price` and
/// `probability`.
pub open spec fn price_of(j: Json) -> Option<Seq<char>> {
    or_else(token_price_of(j),
    or_else(opt_number(get_spec(j, "currentPrice"@)),
    or_else(opt_number(get_spec(j, "price"@)),
        opt_number(get_spec(j, "probability"@)))))
}

/// The first usable volume among `volumeNum`, `volume` and `totalVolume`:
/// a number, or a string that reads as one.
pub open spec fn volume_of(j: Json) -> Option<Seq<char>> {
    or_else(opt_volume(get_spec(j, "volumeNum"@)),
    or_else(opt_volume(get_spec(j, "volume"@)), opt_volume(get_spec(j, "totalVolume"@))))
}

/// The first string among `end_date_iso`, `endDate`, `end_date` and
/// `endTime`, kept verbatim.
pub open spec fn end_date_of(j: Json) -> Option<Seq<char>> {
    or_else(str_member(j, "end_date_iso"@), or_else(str_member(j, "endDate"@),
    or_else(str_member(j, "end_date"@), str_member(j, "endTime"@))))
}

pub open spec fn untitled() -> Seq<char> {
    "Untitled Market"@
}

/// The record that one payload object describes, when it has an identity.
pub open spec fn market_of(j: Json) -> Option<MarketView> {
    match identity_of(j) {
        Some(id) => Some(MarketView {
            id,
            title: match title_of(j) { Some(t) => t, None => untitled() },
            description: description_of(j),
            current_price: price_of(j),
            volume: volume_of(j),
            end_date: end_date_of(j),
            discovered_at: None,
            updated_at: None,
        }),
        None => None,
    }
}

/// The records of a list of payload objects, in order, skipping those
/// without an identity.
pub open spec fn parse_all(items: Seq<Json>) -> Seq<MarketView>
    decreases items.len(),
{
    if items.len() == 0 {
        Seq::empty()
    } else {
        let rest = parse_all(items.drop_last());
        match market_of(items.last()) {
            Some(m) => rest.push(m),
            None => rest,
        }
    }
}

/// The list of payload objects in a document: a bare array, else a
/// `markets` array, else a `pageProps.markets` array, else nothing.
pub open spec fn batch_items(j: Json) -> Seq<Json> {
    match j {
        Json::Array(a) => a@,
        _ => match get_spec(j, "markets"@) {
            Some(Json::Array(a)) => a@,
            _ => match get_spec(j, "pageProps"@) {
                Some(p) => match get_spec(p, "markets"@) {
                    Some(Json::Array(a)) => a@,
                    _ => Seq::empty(),
                },
                None => Seq::empty(),
            },
        },
    }
}

/// The objects of `items` that have an identity, in order.
pub open spec fn identified(items: Seq<Json>) -> Seq<Json> {
    items.filter(|j: Json| has_identity(j))
}

/// Reading a batch keeps exactly the objects that have an identity, in
/// order, and reads each of them as `parse_single_market` does.
pub proof fn batch_keeps_identified(items: Seq<Json>)
    ensures
        parse_all(items).len() == identified(items).len(),
        forall|i: int|
            0 <= i < parse_all(items).len() ==> Some(#[trigger] parse_all(items)[i]) == market_of(
                identified(items)[i],
            ),
    decreases items.len(),
{
    if items.len() > 0 {
        batch_keeps_identified(items.drop_last());
        let prev = parse_all(items.drop_last());
        let kept = identified(items.drop_last());
        reveal(Seq::filter);
        assert(identified(items) == if has_identity(items.last()) {
            kept.push(items.last())
        } else {
            kept
        });
        if has_identity(items.last()) {
            assert forall|i: int| 0 <= i < parse_all(items).len() implies Some(
                #[trigger] parse_all(items)[i],
            ) == market_of(identified(items)[i]) by {
                if i < prev.len() {
                    assert(parse_all(items)[i] == prev[i]);
                    assert(identified(items)[i] == kept[i]);
                }
            }
        }
    }
}

fn text_of(v: Option<&Json>) -> (r: Option<String>)
    ensures
        opt_view(r) == opt_str(deref_opt(v)),
{
    match v {
        Some(j) => match j.as_str() {
            Some(s) => Some(s.clone()),
            None => None,
        },
        None => None,
    }
}

fn number_string(n: &JsonNumber) -> (r: String)
    ensures
        r@ == number_text(*n),
{
    match n {
        JsonNumber::PosInt(u) => u64_text(*u),
        JsonNumber::NegInt(i) => i64_text(*i),
        JsonNumber::Float(t) => t.clone(),
    }
}

fn number_of(v: Option<&Json>) -> (r: Option<String>)
    ensures
        opt_view(r) == opt_number(deref_opt(v)),
{
    match v {
        Some(Json::Number(n)) => Some(number_string(n)),
        _ => None,
    }
}

fn id_of(v: Option<&Json>) -> (r: Option<String>)
    ensures
        opt_view(r) == opt_id(deref_opt(v)),
{
    match v {
        Some(Json::Str(s)) => Some(s.clone()),
        Some(Json::Number(JsonNumber::PosInt(u))) => Some(u64_text(*u)),
        Some(Json::Number(JsonNumber::NegInt(i))) => Some(i64_text(*i)),
        _ => None,
    }
}

fn volume_from(v: Option<&Json>) -> (r: Option<String>)
    ensures
        opt_view(r) == opt_volume(deref_opt(v)),
{
    match v {
        Some(Json::Number(n)) => Some(number_string(n)),
        Some(Json::Str(s)) => if is_float_literal_text(s.as_str()) {
            Some(s.clone())
        } else {
            None
        },
        _ => None,
    }
}

fn token_price(j: &Json) -> (r: Option<String>)
    ensures
        opt_view(r) == token_price_of(*j),
{
    match j.get("tokens") {
        Some(Json::Array(a)) => if a.len() > 0 {
            number_of(a[0].get("price"))
        } else {
            None
        },
        _ => None,
    }
}

fn or_else_string(a: Option<String>, b: Option<String>) -> (r: Option<String>)
    ensures
        opt_view(r) == or_else(opt_view(a), opt_view(b)),
{
    match a {
        Some(s) => Some(s),
        None => b,
    }
}

/// Reads one payload object into a record. Each field comes from the first
/// of its candidate members that holds a usable value, as `market_of` states; a missing identity is
/// the one error.
pub fn parse_single_market(json: &Json) -> (r: Result<Market, ParseError>)
    ensures
        r is Ok <==> has_identity(*json),
        r is Ok ==> r->Ok_0.id@ == identity_of(*json)->0,
        match r {
            Ok(m) => market_of(*json) == Some(m@),
            Err(e) => market_of(*json) is None && e == ParseError::MissingId,
        },
{
    let id = or_else_string(id_of(json.get("id")),
        or_else_string(text_of(json.get("slug")),
        or_else_string(text_of(json.get("marketId")), text_of(json.get("market_slug")))));
    let id = match id {
        Some(id) => id,
        None => return Err(ParseError::MissingId),
    };
    let title = match or_else_string(text_of(json.get("question")),
        or_else_string(text_of(json.get("title")), text_of(json.get("name")))) {
        Some(t) => t,
        None => String::from_str("Untitled Market"),
    };
    let description = or_else_string(text_of(json.get("description")),
        text_of(json.get("descriptionText")));
    let current_price = or_else_string(token_price(json),
        or_else_string(number_of(json.get("currentPrice")),
        or_else_string(number_of(json.get("price")), number_of(json.get("probability")))));
    let volume = or_else_string(volume_from(json.get("volumeNum")),
        or_else_string(volume_from(json.get("volume")), volume_from(json.get("totalVolume"))));
    let end_date = or_else_string(text_of(json.get("end_date_iso")),
        or_else_string(text_of(json.get("endDate")),
        or_else_string(text_of(json.get("end_date")), text_of(json.get("endTime")))));
    let m = Market {
        id,
        title,
        description,
        current_price,
        volume,
        end_date,
        discovered_at: None,
        updated_at: None,
    };
    assert(market_of(*json) == Some(m@));
    Ok(m)
}

fn parse_each(items: &Vec<Json>) -> (r: Vec<Market>)
    ensures
        r@.len() == parse_all(items@).len(),
        forall|i: int| 0 <= i < r@.len() ==> r@[i]@ == parse_all(items@)[i],
{
    let mut out: Vec<Market> = Vec::new();
    let mut i: usize = 0;
    while i < items.len()
        invariant
            i <= items@.len(),
            out@.len() == parse_all(items@.take(i as int)).len(),
            forall|k: int| 0 <= k < out@.len() ==> out@[k]@ == parse_all(items@.take(i as int))[k],
        decreases items@.len() - i,
    {
        assert(items@.take(i + 1).drop_last() =~= items@.take(i as int));
        assert(items@.take(i + 1).last() == items@[i as int]);
        match parse_single_market(&items[i]) {
            Ok(m) => out.push(m),
            Err(_) => {},
        }
        i = i + 1;
    }
    assert(items@.take(items@.len() as int) =~= items@);
    out
}

/// Reads every record of a payload document, in order. Objects without an
/// identity are skipped; a document of no known shape yields no records.
pub fn parse_markets_from_json(json: &Json) -> (r: Vec<Market>)
    ensures
        r@.len() == parse_all(batch_items(*json)).len(),
        forall|i: int| 0 <= i < r@.len() ==> r@[i]@ == parse_all(batch_items(*json))[i],
{
    if let Some(a) = json.as_array() {
        return parse_each(a);
    }
    if let Some(Json::Array(a)) = json.get("markets") {
        return parse_each(a);
    }
    match json.get("pageProps") {
        Some(p) => match p.get("markets") {
            Some(Json::Array(a)) => parse_each(a),
            _ => Vec::new(),
        },
        None => Vec::new(),
    }
}

} // verus!
