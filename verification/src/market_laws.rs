//! What the details of a market are, by what the exchange lists of it.
use crate::arithmetic;
use crate::arithmetic::Arithmetic;
use crate::document_laws;
use crate::double::Double;
use crate::feed_laws;
use crate::market_info;
use crate::market_info::{MarketDetails, MarketError, OrderBookInfo};
use crate::text;
use crate::values;
use vstd::prelude::*;

verus! {

/// A minimum amount is the number that its text reads as; it is zero only where
/// there is no text, where none can be read in it, or where that is zero.
pub open spec fn is_minimum<A: Arithmetic>(ops: &A, amount: Option<String>, x: Double) -> bool {
    match amount {
        Some(s) => document_laws::reads_as(ops, s@, x) || document_laws::reads_none(ops, s@) && x
            == Double::zero(),
        None => x == Double::zero(),
    }
}

/// A tick is ten to the power of the negated number of decimals, or of a default
/// where none is listed; of a number beyond 32 bits the lower 32 count.
pub open spec fn is_tick<A: Arithmetic>(
    ops: &A,
    decimals: Option<i64>,
    default: int,
    tick: Double,
) -> bool {
    forall|e: i32|
        (e + listed_or(decimals, default)) % 0x1_0000_0000 == 0
            ==> #[trigger] arithmetic::is_power_of_ten(ops, e, tick)
}

pub open spec fn listed_or(decimals: Option<i64>, default: int) -> int {
    match decimals {
        Some(d) => d as int,
        None => default,
    }
}

/// A number of decimals, or its default, can be negated in 32 bits: its lower 32
/// are not the sign bit alone.
pub open spec fn is_usable(decimals: Option<i64>, default: int) -> bool {
    (listed_or(decimals, default) - 0x8000_0000) % 0x1_0000_0000 != 0
}

/// What is left of an integer in 32 bits differs from it by a multiple of what
/// they can hold.
proof fn lemma_lower_bits(d: i64)
    ensures
        (d - (d as i32)) % 0x1_0000_0000 == 0,
{
    assert((d - (d as i32)) % 0x1_0000_0000 == 0) by (bit_vector);
}

/// Decimals are usable exactly if they are so by their lower 32 bits.
proof fn lemma_usable(book: OrderBookInfo)
    ensures
        book.has_usable_decimals() <==> is_usable(book.supported_price_decimals, 1) && is_usable(
            book.supported_size_decimals,
            4,
        ),
{
    lemma_lower_bits(book.price_decimals());
    lemma_lower_bits(book.size_decimals());
}

/// The details are those of a market that is listed.
pub open spec fn is_described<A: Arithmetic>(
    ops: &A,
    book: OrderBookInfo,
    d: MarketDetails,
) -> bool {
    &&& d.market_id == book.market_id
    &&& is_tick(ops, book.supported_price_decimals, 1, d.price_tick)
    &&& is_tick(ops, book.supported_size_decimals, 4, d.amount_tick)
    &&& forall|x: Double| #[trigger]
        is_minimum(ops, book.min_base_amount, x) ==> d.min_base_amount == x
    &&& forall|x: Double| #[trigger]
        is_minimum(ops, book.min_quote_amount, x) ==> d.min_quote_amount == x
}

proof fn lemma_described<A: Arithmetic>(ops: &A, book: OrderBookInfo, d: MarketDetails)
    requires
        market_info::describes(ops, book, d),
        book.has_usable_decimals(),
    ensures
        is_described(ops, book, d),
{
    lemma_minimum(ops, book.min_base_amount, d.min_base_amount);
    lemma_minimum(ops, book.min_quote_amount, d.min_quote_amount);
    lemma_lower_bits(book.price_decimals());
    lemma_lower_bits(book.size_decimals());
}

proof fn lemma_minimum<A: Arithmetic>(ops: &A, amount: Option<String>, r: Double)
    requires
        market_info::is_amount(ops, amount, r),
    ensures
        forall|x: Double| #[trigger] is_minimum(ops, amount, x) ==> r == x,
{
    if let Some(s) = amount {
        let read = choose|read: Option<Double>| #[trigger]
            arithmetic::is_parse(ops, s@, read) && r == match read {
                Some(x) => x,
                None => Double::zero(),
            };
        assert forall|x: Double| #[trigger] is_minimum(ops, amount, x) implies r == x by {
            assert(arithmetic::is_parse(ops, s@, read));
        }
    }
}

/// The details of a listed market have its id, ticks by its numbers of decimals,
/// one for prices and four for sizes where it lists none, and its minimum amounts
/// as they read.
pub proof fn law_details_are_as_listed<A: Arithmetic>(
    ops: &A,
    book: &OrderBookInfo,
    d: MarketDetails,
)
    requires
        is_usable(book.supported_price_decimals, 1) && is_usable(book.supported_size_decimals, 4),
        call_ensures(market_info::details_of::<A>, (ops, book), d),
    ensures
        is_described(ops, *book, d),
        forall|s: String, x: Double|
            book.min_quote_amount == Some(s) && #[trigger] document_laws::reads_as(ops, s@, x)
                ==> d.min_quote_amount == x,
        forall|s: String, x: Double|
            book.min_base_amount == Some(s) && #[trigger] document_laws::reads_as(ops, s@, x)
                ==> d.min_base_amount == x,
{
    lemma_usable(*book);
    lemma_described(ops, *book, d);
    assert forall|s: String, x: Double|
        book.min_quote_amount == Some(s) && #[trigger] document_laws::reads_as(
            ops,
            s@,
            x,
        ) implies d.min_quote_amount == x by {
        assert(is_minimum(ops, book.min_quote_amount, x));
    }
    assert forall|s: String, x: Double|
        book.min_base_amount == Some(s) && #[trigger] document_laws::reads_as(
            ops,
            s@,
            x,
        ) implies d.min_base_amount == x by {
        assert(is_minimum(ops, book.min_base_amount, x));
    }
}

/// A market goes by a symbol, letter case aside; one without a symbol goes by the
/// empty text.
pub open spec fn goes_by(book: OrderBookInfo, symbol: Seq<char>) -> bool {
    match book.symbol {
        Some(s) => document_laws::same_letters(s@, symbol),
        None => symbol.len() == 0,
    }
}

proof fn lemma_goes_by(book: OrderBookInfo, symbol: Seq<char>)
    ensures
        book.matches(symbol) <==> goes_by(book, symbol),
{
    document_laws::law_ascii_case_is_of_letters_alone(book.symbol_text(), symbol);
    reveal_strlit("");
    assert(""@.len() == 0);
}

/// `at` is the first market that goes by a symbol.
pub open spec fn is_first_of(books: Seq<OrderBookInfo>, symbol: Seq<char>, at: int) -> bool {
    &&& 0 <= at < books.len()
    &&& goes_by(books[at], symbol)
    &&& forall|i: int| 0 <= i < at ==> !#[trigger] goes_by(books[i], symbol)
}

/// A market is found where the first one that goes by the symbol stands.
pub proof fn law_first_market_of_symbol_is_found(
    books: &[OrderBookInfo],
    symbol_upper: &str,
    r: Option<usize>,
)
    requires
        call_ensures(market_info::find_market, (books, symbol_upper), r),
    ensures
        r matches Some(at) ==> is_first_of(books@, symbol_upper@, at as int),
        r is None ==> forall|i: int|
            0 <= i < books@.len() ==> !#[trigger] goes_by(books@[i], symbol_upper@),
{
    assert forall|i: int| 0 <= i < books@.len() implies goes_by(books@[i], symbol_upper@)
        == #[trigger] books@[i].matches(symbol_upper@) by {
        lemma_goes_by(books@[i], symbol_upper@);
    }
    if let Some(at) = r {
        assert(books@[at as int].matches(symbol_upper@));
        assert forall|i: int| 0 <= i < at implies !#[trigger] goes_by(
            books@[i],
            symbol_upper@,
        ) by {
            assert(!books@[i].matches(symbol_upper@));
        }
    } else {
        assert forall|i: int| 0 <= i < books@.len() implies !#[trigger] goes_by(
            books@[i],
            symbol_upper@,
        ) by {
            assert(!books@[i].matches(symbol_upper@));
        }
    }
}

/// The tick sizes that are known: for BTC a tenth and a ten-thousandth, for ETH a
/// hundredth and a thousandth, for SOL a thousandth and a hundredth, each of price
/// and of amount; none for any other symbol.
pub open spec fn are_known_ticks(symbol: Seq<char>, r: Option<(Double, Double)>) -> bool {
    &&& symbol == "BTC"@ ==> (r matches Some((price, amount)) && values::is_about_one_over(
        price,
        10,
    ) && values::is_about_one_over(amount, 10_000))
    &&& symbol == "ETH"@ ==> (r matches Some((price, amount)) && values::is_about_one_over(
        price,
        100,
    ) && values::is_about_one_over(amount, 1_000))
    &&& symbol == "SOL"@ ==> (r matches Some((price, amount)) && values::is_about_one_over(
        price,
        1_000,
    ) && values::is_about_one_over(amount, 100))
    &&& symbol != "BTC"@ && symbol != "ETH"@ && symbol != "SOL"@ ==> r is None
}

proof fn lemma_known_ticks(symbol: Seq<char>)
    ensures
        are_known_ticks(symbol, market_info::known_ticks(symbol)),
{
    values::law_named_fractions_have_their_values();
    reveal_strlit("BTC");
    reveal_strlit("ETH");
    reveal_strlit("SOL");
    assert("BTC"@[0] != "ETH"@[0] && "BTC"@[0] != "SOL"@[0] && "ETH"@[0] != "SOL"@[0]);
}

/// The known tick sizes are given for their symbols, in capitals or, by the
/// fallback, in any letter case.
pub proof fn law_known_ticks_are_of_symbols(
    symbol_upper: &str,
    known: Option<(Double, Double)>,
    symbol: &str,
    fallback: Option<(Double, Double)>,
)
    requires
        call_ensures(market_info::known_tick_size, (symbol_upper,), known),
        call_ensures(market_info::fallback_tick_size, (symbol,), fallback),
    ensures
        are_known_ticks(symbol_upper@, known),
        are_known_ticks(text::uppercase(symbol@), fallback),
        text::is_ascii_text(symbol@) ==> are_known_ticks(text::ascii_uppered(symbol@), fallback),
{
    lemma_known_ticks(symbol_upper@);
    lemma_known_ticks(text::uppercase(symbol@));
    lemma_known_ticks(text::ascii_uppered(symbol@));
}

/// What the details for a symbol are: those of the first market that goes by it,
/// an error that names it where its decimals are of no use; without such a market
/// the known ticks, with nothing else known; and without those an error that names
/// the symbol as it was asked for.
pub open spec fn are_details<A: Arithmetic>(
    ops: &A,
    books: Seq<OrderBookInfo>,
    symbol: Seq<char>,
    symbol_upper: Seq<char>,
    r: Result<MarketDetails, MarketError>,
) -> bool {
    &&& forall|at: int| #[trigger]
        is_first_of(books, symbol_upper, at) ==> {
            &&& is_usable(books[at].supported_price_decimals, 1) && is_usable(
                books[at].supported_size_decimals,
                4,
            ) <==> r is Ok
            &&& r matches Ok(d) ==> is_described(ops, books[at], d)
            &&& r matches Err(e) ==> (e matches MarketError::UnusableDecimals { market_id }
                && market_id == books[at].market_id)
        }
    &&& (forall|i: int| 0 <= i < books.len() ==> !#[trigger] goes_by(books[i], symbol_upper)) ==> {
        &&& symbol_upper == "BTC"@ || symbol_upper == "ETH"@ || symbol_upper == "SOL"@ <==> r is Ok
        &&& r matches Ok(d) ==> d.market_id == 0 && d.min_base_amount == Double::zero()
            && d.min_quote_amount == Double::zero() && are_known_ticks(
            symbol_upper,
            Some((d.price_tick, d.amount_tick)),
        )
        &&& r matches Err(e) ==> (e matches MarketError::NotFound { symbol: named } && named@
            == symbol)
    }
}

proof fn lemma_details<A: Arithmetic>(
    ops: &A,
    books: Seq<OrderBookInfo>,
    symbol: Seq<char>,
    symbol_upper: Seq<char>,
    r: Result<MarketDetails, MarketError>,
)
    requires
        market_info::is_details(ops, books, symbol, symbol_upper, r),
    ensures
        are_details(ops, books, symbol, symbol_upper, r),
{
    assert forall|at: int| #[trigger] is_first_of(books, symbol_upper, at) implies {
        &&& is_usable(books[at].supported_price_decimals, 1) && is_usable(
            books[at].supported_size_decimals,
            4,
        ) <==> r is Ok
        &&& r matches Ok(d) ==> is_described(ops, books[at], d)
        &&& r matches Err(e) ==> (e matches MarketError::UnusableDecimals { market_id }
            && market_id == books[at].market_id)
    } by {
        lemma_goes_by(books[at], symbol_upper);
        assert forall|i: int| 0 <= i < at implies !(#[trigger] books[i]).matches(
            symbol_upper,
        ) by {
            lemma_goes_by(books[i], symbol_upper);
            assert(!goes_by(books[i], symbol_upper));
        }
        assert(market_info::is_first_match(books, symbol_upper, at));
        market_info::law_listed_market_wins(ops, books, symbol, symbol_upper, r, at);
        lemma_usable(books[at]);
        if let Ok(d) = r {
            lemma_described(ops, books[at], d);
        }
    }
    if forall|i: int| 0 <= i < books.len() ==> !#[trigger] goes_by(books[i], symbol_upper) {
        assert forall|i: int| 0 <= i < books.len() implies !(#[trigger] books[i]).matches(
            symbol_upper,
        ) by {
            lemma_goes_by(books[i], symbol_upper);
            assert(!goes_by(books[i], symbol_upper));
        }
        assert(market_info::no_match(books, symbol_upper));
        lemma_known_ticks(symbol_upper);
    }
}

/// The details for a symbol are those of its first market, else the known ticks,
/// else there are none. The symbol is sought in capitals.
pub proof fn law_details_are_of_first_market<A: Arithmetic>(
    ops: &A,
    symbol: &str,
    symbol_upper: &str,
    books: &[OrderBookInfo],
    r: Result<MarketDetails, MarketError>,
    q: Result<MarketDetails, MarketError>,
)
    requires
        call_ensures(market_info::market_details_for::<A>, (ops, symbol, symbol_upper, books), r),
        call_ensures(market_info::get_market_details::<A>, (ops, symbol, books), q),
    ensures
        are_details(ops, books@, symbol@, symbol_upper@, r),
        are_details(ops, books@, symbol@, text::uppercase(symbol@), q),
        text::is_ascii_text(symbol@) ==> are_details(
            ops,
            books@,
            symbol@,
            text::ascii_uppered(symbol@),
            q,
        ),
{
    lemma_details(ops, books@, symbol@, symbol_upper@, r);
    lemma_details(ops, books@, symbol@, text::uppercase(symbol@), q);
    if text::is_ascii_text(symbol@) {
        lemma_details(ops, books@, symbol@, text::ascii_uppered(symbol@), q);
    }
}

/// An error says in words which market it is about.
pub proof fn law_errors_name_their_market(e: &MarketError, r: String)
    requires
        call_ensures(MarketError::message, (e,), r),
    ensures
        e matches MarketError::NotFound { symbol } ==> r@ == "Market "@ + symbol@
            + " not found and no fallback available"@,
        e matches MarketError::UnusableDecimals { market_id } ==> exists|id: Seq<char>|
            #[trigger] feed_laws::integer_value(id) == market_id && r@ == "Market "@ + id
                + " is listed with an unusable number of decimals"@,
{
    if let MarketError::UnusableDecimals { market_id } = e {
        feed_laws::law_signed_decimal_reads_back(*market_id as int);
    }
}

} // verus!
