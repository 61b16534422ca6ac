//! What is known of a market: its tick sizes and minimum amounts.
use crate::arithmetic;
use crate::arithmetic::Arithmetic;
use crate::double::Double;
use crate::text;
use vstd::prelude::*;

verus! {

/// A market as the exchange lists it.
#[derive(Debug)]
pub struct OrderBookInfo {
    pub market_id: i64,
    pub symbol: Option<String>,
    pub supported_price_decimals: Option<i64>,
    pub supported_size_decimals: Option<i64>,
    pub min_base_amount: Option<String>,
    pub min_quote_amount: Option<String>,
}

#[derive(Clone, Copy, Debug, PartialEq, Eq, Structural)]
pub struct MarketDetails {
    pub market_id: i64,
    pub price_tick: Double,
    pub amount_tick: Double,
    pub min_base_amount: Double,
    pub min_quote_amount: Double,
}

/// Why there are no details for a market.
#[derive(Debug)]
pub enum MarketError {
    /// The exchange does not list it and its tick sizes are not known.
    NotFound { symbol: String },
    /// It is listed with a number of decimals that no tick can be computed
    /// from.
    UnusableDecimals { market_id: i64 },
}

impl MarketError {
    /// The error in words.
    pub fn message(&self) -> (r: String)
        ensures
            match self {
                MarketError::NotFound { symbol } => r@ == "Market "@ + symbol@
                    + " not found and no fallback available"@,
                MarketError::UnusableDecimals { market_id } => r@ == "Market "@
                    + text::signed_decimal(market_id as int)
                    + " is listed with an unusable number of decimals"@,
            },
    {
        match self {
            MarketError::NotFound { symbol } => {
                let mut r = "Market ".to_owned();
                r.append(symbol.as_str());
                r.append(" not found and no fallback available");
                r
            },
            MarketError::UnusableDecimals { market_id } => {
                let mut r = "Market ".to_owned();
                text::append_signed(&mut r, *market_id);
                r.append(" is listed with an unusable number of decimals");
                r
            },
        }
    }
}

impl OrderBookInfo {
    pub open spec fn symbol_text(self) -> Seq<char> {
        match self.symbol {
            Some(s) => s@,
            None => ""@,
        }
    }

    pub open spec fn price_decimals(self) -> i64 {
        match self.supported_price_decimals {
            Some(d) => d,
            None => 1,
        }
    }

    pub open spec fn size_decimals(self) -> i64 {
        match self.supported_size_decimals {
            Some(d) => d,
            None => 4,
        }
    }

    /// Whether the numbers of decimals can be negated once cut to 32 bits.
    pub open spec fn has_usable_decimals(self) -> bool {
        self.price_decimals() as i32 != i32::MIN && self.size_decimals() as i32 != i32::MIN
    }

    /// Whether this is the market of an upper-case symbol, letter case aside.
    pub open spec fn matches(self, symbol_upper: Seq<char>) -> bool {
        text::ascii_lowered(self.symbol_text()) == text::ascii_lowered(symbol_upper)
    }
}

/// The tick sizes of price and amount that are known of a few symbols.
pub open spec fn known_ticks(symbol_upper: Seq<char>) -> Option<(Double, Double)> {
    if symbol_upper == "BTC"@ {
        Some((Double { bits: 0x3fb9_9999_9999_999a }, Double { bits: 0x3f1a_36e2_eb1c_432d }))
    } else if symbol_upper == "ETH"@ {
        Some((Double { bits: 0x3f84_7ae1_47ae_147b }, Double { bits: 0x3f50_624d_d2f1_a9fc }))
    } else if symbol_upper == "SOL"@ {
        Some((Double { bits: 0x3f50_624d_d2f1_a9fc }, Double { bits: 0x3f84_7ae1_47ae_147b }))
    } else {
        None
    }
}

/// The tick sizes of an upper-case symbol, where they are known: 0.1 and 0.0001
/// for BTC, 0.01 and 0.001 for ETH, 0.001 and 0.01 for SOL.
pub fn known_tick_size(symbol_upper: &str) -> (r: Option<(Double, Double)>)
    ensures
        r == known_ticks(symbol_upper@),
{
    let tenth = Double::from_bits(0x3fb9_9999_9999_999a);
    let hundredth = Double::from_bits(0x3f84_7ae1_47ae_147b);
    let thousandth = Double::from_bits(0x3f50_624d_d2f1_a9fc);
    let ten_thousandth = Double::from_bits(0x3f1a_36e2_eb1c_432d);
    if text::same_text(symbol_upper, "BTC") {
        Some((tenth, ten_thousandth))
    } else if text::same_text(symbol_upper, "ETH") {
        Some((hundredth, thousandth))
    } else if text::same_text(symbol_upper, "SOL") {
        Some((thousandth, hundredth))
    } else {
        None
    }
}

/// Fallback tick sizes for known symbols.
pub fn fallback_tick_size(symbol: &str) -> (r: Option<(Double, Double)>)
    ensures
        r == known_ticks(text::uppercase(symbol@)),
        text::is_ascii_text(symbol@) ==> r == known_ticks(text::ascii_uppered(symbol@)),
{
    let upper = text::to_uppercase(symbol);
    known_tick_size(upper.as_str())
}

/// `at` is the first market of an upper-case symbol.
pub open spec fn is_first_match(
    books: Seq<OrderBookInfo>,
    symbol_upper: Seq<char>,
    at: int,
) -> bool {
    &&& 0 <= at < books.len()
    &&& books[at].matches(symbol_upper)
    &&& forall|i: int| 0 <= i < at ==> !(#[trigger] books[i]).matches(symbol_upper)
}

/// No market is that of an upper-case symbol.
pub open spec fn no_match(books: Seq<OrderBookInfo>, symbol_upper: Seq<char>) -> bool {
    forall|i: int| 0 <= i < books.len() ==> !(#[trigger] books[i]).matches(symbol_upper)
}

/// Where the market of an upper-case symbol stands in a list.
pub fn find_market(books: &[OrderBookInfo], symbol_upper: &str) -> (r: Option<usize>)
    ensures
        match r {
            Some(at) => is_first_match(books@, symbol_upper@, at as int),
            None => no_match(books@, symbol_upper@),
        },
{
    for i in 0..books.len()
        invariant
            forall|j: int| 0 <= j < i ==> !(#[trigger] books@[j]).matches(symbol_upper@),
    {
        let sym = match &books[i].symbol {
            Some(s) => s.as_str(),
            None => "",
        };
        if text::same_ignoring_ascii_case(sym, symbol_upper) {
            return Some(i);
        }
    }
    None
}

/// `r` is an amount: what the text says, zero where there is none that can be
/// read.
pub open spec fn is_amount<A: Arithmetic>(ops: &A, text: Option<String>, r: Double) -> bool {
    match text {
        Some(s) => exists|read: Option<Double>| #[trigger]
            arithmetic::is_parse(ops, s@, read) && r == match read {
                Some(x) => x,
                None => Double::zero(),
            },
        None => r == Double::zero(),
    }
}

/// The number of decimals as the exponent of a tick.
pub open spec fn tick_exponent(decimals: i64) -> i32 {
    (-(decimals as i32)) as i32
}

/// `d` are the details of a listed market.
pub open spec fn describes<A: Arithmetic>(ops: &A, book: OrderBookInfo, d: MarketDetails) -> bool {
    &&& d.market_id == book.market_id
    &&& arithmetic::is_power_of_ten(ops, tick_exponent(book.price_decimals()), d.price_tick)
    &&& arithmetic::is_power_of_ten(ops, tick_exponent(book.size_decimals()), d.amount_tick)
    &&& is_amount(ops, book.min_base_amount, d.min_base_amount)
    &&& is_amount(ops, book.min_quote_amount, d.min_quote_amount)
}

fn read_amount<A: Arithmetic>(ops: &A, amount: &Option<String>) -> (r: Double)
    ensures
        is_amount(ops, *amount, r),
{
    match amount {
        Some(s) => {
            let read = ops.parse(s.as_str());
            assert(arithmetic::is_parse(ops, s@, read));
            match read {
                Some(x) => x,
                None => Double::zero(),
            }
        },
        None => Double::zero(),
    }
}

/// The number of decimals as the exponent of a tick, before it is negated.
fn cut_decimals(decimals: &Option<i64>, default: i64) -> (r: i32)
    ensures
        r == match decimals {
            Some(d) => *d,
            None => default,
        } as i32,
{
    let d: i64 = match decimals {
        Some(d) => *d,
        None => default,
    };
    #[verifier::truncate]
    (d as i32)
}

fn has_usable_decimals(book: &OrderBookInfo) -> (r: bool)
    ensures
        r == book.has_usable_decimals(),
{
    cut_decimals(&book.supported_price_decimals, 1) != i32::MIN && cut_decimals(
        &book.supported_size_decimals,
        4,
    ) != i32::MIN
}

/// The details of a listed market: its ticks are ten to the negated numbers of
/// decimals.
pub fn details_of<A: Arithmetic>(ops: &A, book: &OrderBookInfo) -> (r: MarketDetails)
    requires
        book.has_usable_decimals(),
    ensures
        describes(ops, *book, r),
{
    let price_exponent: i32 = -cut_decimals(&book.supported_price_decimals, 1);
    let size_exponent: i32 = -cut_decimals(&book.supported_size_decimals, 4);
    let price_tick = ops.power_of_ten(price_exponent);
    let amount_tick = ops.power_of_ten(size_exponent);
    let min_base_amount = read_amount(ops, &book.min_base_amount);
    let min_quote_amount = read_amount(ops, &book.min_quote_amount);
    MarketDetails {
        market_id: book.market_id,
        price_tick,
        amount_tick,
        min_base_amount,
        min_quote_amount,
    }
}

/// The details of a market that the exchange does not list.
pub open spec fn unlisted(ticks: (Double, Double)) -> MarketDetails {
    MarketDetails {
        market_id: 0,
        price_tick: ticks.0,
        amount_tick: ticks.1,
        min_base_amount: Double::zero(),
        min_quote_amount: Double::zero(),
    }
}

/// `r` are the details of a listed market, or the error that its decimals are
/// of no use.
pub open spec fn is_listed_details<A: Arithmetic>(
    ops: &A,
    book: OrderBookInfo,
    r: Result<MarketDetails, MarketError>,
) -> bool {
    match r {
        Ok(d) => book.has_usable_decimals() && describes(ops, book, d),
        Err(MarketError::UnusableDecimals { market_id }) => !book.has_usable_decimals()
            && market_id == book.market_id,
        Err(MarketError::NotFound { .. }) => false,
    }
}

/// `r` are the details for an upper-case symbol: those of the first market of
/// that symbol; without one, known tick sizes; without those, an error that
/// names the symbol as it was asked for.
pub open spec fn is_details<A: Arithmetic>(
    ops: &A,
    books: Seq<OrderBookInfo>,
    symbol: Seq<char>,
    symbol_upper: Seq<char>,
    r: Result<MarketDetails, MarketError>,
) -> bool {
    if no_match(books, symbol_upper) {
        match known_ticks(symbol_upper) {
            Some(ticks) => r == Ok::<MarketDetails, MarketError>(unlisted(ticks)),
            None => r matches Err(MarketError::NotFound { symbol: named }) && named@ == symbol,
        }
    } else {
        exists|at: int| #[trigger]
            is_first_match(books, symbol_upper, at) && is_listed_details(ops, books[at], r)
    }
}

/// Market details for a symbol, given its upper-case form.
pub fn market_details_for<A: Arithmetic>(
    ops: &A,
    symbol: &str,
    symbol_upper: &str,
    books: &[OrderBookInfo],
) -> (r: Result<MarketDetails, MarketError>)
    ensures
        is_details(ops, books@, symbol@, symbol_upper@, r),
{
    match find_market(books, symbol_upper) {
        Some(at) => {
            assert(books@[at as int].matches(symbol_upper@));
            assert(!no_match(books@, symbol_upper@));
            let book = &books[at];
            if has_usable_decimals(book) {
                Ok(details_of(ops, book))
            } else {
                Err(MarketError::UnusableDecimals { market_id: book.market_id })
            }
        },
        None => match known_tick_size(symbol_upper) {
            Some((price_tick, amount_tick)) => Ok(
                MarketDetails {
                    market_id: 0,
                    price_tick,
                    amount_tick,
                    min_base_amount: Double::zero(),
                    min_quote_amount: Double::zero(),
                },
            ),
            None => Err(MarketError::NotFound { symbol: symbol.to_owned() }),
        },
    }
}

/// Market details for a symbol, given the markets that the exchange lists.
pub fn get_market_details<A: Arithmetic>(
    ops: &A,
    symbol: &str,
    books: &[OrderBookInfo],
) -> (r: Result<MarketDetails, MarketError>)
    ensures
        is_details(ops, books@, symbol@, text::uppercase(symbol@), r),
        text::is_ascii_text(symbol@) ==> is_details(
            ops,
            books@,
            symbol@,
            text::ascii_uppered(symbol@),
            r,
        ),
{
    let upper = text::to_uppercase(symbol);
    market_details_for(ops, symbol, upper.as_str(), books)
}

/// The exchange's own list is asked before the known tick sizes.
pub proof fn law_listed_market_wins<A: Arithmetic>(
    ops: &A,
    books: Seq<OrderBookInfo>,
    symbol: Seq<char>,
    symbol_upper: Seq<char>,
    r: Result<MarketDetails, MarketError>,
    at: int,
)
    requires
        is_details(ops, books, symbol, symbol_upper, r),
        is_first_match(books, symbol_upper, at),
    ensures
        is_listed_details(ops, books[at], r),
{
    assert(books[at].matches(symbol_upper));
    assert(!no_match(books, symbol_upper));
    let other = choose|other: int| #[trigger]
        is_first_match(books, symbol_upper, other) && is_listed_details(ops, books[other], r);
    if other < at {
        assert(!books[other].matches(symbol_upper));
    } else if at < other {
        assert(!books[at].matches(symbol_upper));
    }
}

} // verus!
