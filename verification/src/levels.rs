//! Numbers and price levels in JSON documents.
use crate::arithmetic;
use crate::arithmetic::Arithmetic;
use crate::double::Double;
use crate::json::{Json, Tree};
use crate::orderbook;
use vstd::prelude::*;

verus! {

/// `r` is a result of reading a document as a number written as text.
pub open spec fn is_number_in<A: Arithmetic>(ops: &A, t: Tree, r: Option<Double>) -> bool {
    match t.text() {
        Some(s) => arithmetic::is_parse(ops, s, r),
        None => r is None,
    }
}

/// `r` is a result of reading a member as a number written as text.
pub open spec fn is_number_at<A: Arithmetic>(
    ops: &A,
    t: Tree,
    name: Seq<char>,
    r: Option<Double>,
) -> bool {
    match t.get(name) {
        Some(member) => is_number_in(ops, member, r),
        None => r is None,
    }
}

/// The number, or zero where there is none.
pub open spec fn or_zero(x: Option<Double>) -> Double {
    match x {
        Some(x) => x,
        None => Double::zero(),
    }
}

/// The levels that could be read, in order.
pub open spec fn present(read: Seq<Option<(Double, Double)>>) -> Seq<(Double, Double)>
    decreases read.len(),
{
    if read.len() == 0 {
        Seq::empty()
    } else {
        match read.last() {
            Some(level) => present(read.drop_last()).push(level),
            None => present(read.drop_last()),
        }
    }
}

/// `r` is a result of reading an item of the form `[price, size, ..]`. What is
/// not a list of two items or more is no level; a number that cannot be read
/// counts as zero.
pub open spec fn reads_pair<A: Arithmetic>(
    ops: &A,
    item: Tree,
    r: Option<(Double, Double)>,
) -> bool {
    match item.items() {
        Some(parts) => if parts.len() >= 2 {
            exists|price: Option<Double>, size: Option<Double>| #[trigger]
                is_number_in(ops, parts[0], price) && #[trigger] is_number_in(ops, parts[1], size)
                    && r == Some((or_zero(price), or_zero(size)))
        } else {
            r is None
        },
        None => r is None,
    }
}

/// `r` is a result of reading an item of the form `{"price": .., "size": ..}`.
/// What lacks one of the two numbers is no level.
pub open spec fn reads_named<A: Arithmetic>(
    ops: &A,
    item: Tree,
    r: Option<(Double, Double)>,
) -> bool {
    exists|price: Option<Double>| #[trigger]
        is_number_at(ops, item, "price"@, price) && match price {
            Some(p) => exists|size: Option<Double>| #[trigger]
                is_number_at(ops, item, "size"@, size) && r == match size {
                    Some(s) => Some((p, s)),
                    None => None,
                },
            None => r is None,
        }
}

/// `levels` are a result of reading items of the form `[price, size, ..]`.
pub open spec fn reads_pairs<A: Arithmetic>(
    ops: &A,
    items: Seq<Tree>,
    levels: Seq<(Double, Double)>,
) -> bool {
    exists|read: Seq<Option<(Double, Double)>>| #[trigger] reads_each_pair(ops, items, read)
        && levels == present(read)
}

pub open spec fn reads_each_pair<A: Arithmetic>(
    ops: &A,
    items: Seq<Tree>,
    read: Seq<Option<(Double, Double)>>,
) -> bool {
    &&& read.len() == items.len()
    &&& forall|i: int| 0 <= i < items.len() ==> reads_pair(ops, #[trigger] items[i], read[i])
}

/// `levels` are a result of reading items of the form
/// `{"price": .., "size": ..}`.
pub open spec fn reads_all_named<A: Arithmetic>(
    ops: &A,
    items: Seq<Tree>,
    levels: Seq<(Double, Double)>,
) -> bool {
    exists|read: Seq<Option<(Double, Double)>>| #[trigger] reads_each_named(ops, items, read)
        && levels == present(read)
}

pub open spec fn reads_each_named<A: Arithmetic>(
    ops: &A,
    items: Seq<Tree>,
    read: Seq<Option<(Double, Double)>>,
) -> bool {
    &&& read.len() == items.len()
    &&& forall|i: int| 0 <= i < items.len() ==> reads_named(ops, #[trigger] items[i], read[i])
}

/// Reads a document as a number written as text.
pub fn number_in<A: Arithmetic>(ops: &A, j: &Json) -> (r: Option<Double>)
    ensures
        is_number_in(ops, j@, r),
{
    match j.as_str() {
        Some(s) => {
            let r = ops.parse(s);
            assert(call_ensures(A::parse, (ops, s), r));
            r
        },
        None => None,
    }
}

/// Reads a member as a number written as text.
pub fn number_at<A: Arithmetic>(ops: &A, j: &Json, name: &str) -> (r: Option<Double>)
    ensures
        is_number_at(ops, j@, name@, r),
{
    match j.get(name) {
        Some(member) => number_in(ops, member),
        None => None,
    }
}

fn unwrap_or_zero(x: Option<Double>) -> (r: Double)
    ensures
        r == or_zero(x),
{
    match x {
        Some(x) => x,
        None => Double::zero(),
    }
}

fn read_pair<A: Arithmetic>(ops: &A, item: &Json) -> (r: Option<(Double, Double)>)
    ensures
        reads_pair(ops, item@, r),
{
    match item.as_array() {
        Some(parts) => {
            if parts.len() >= 2 {
                let price = number_in(ops, &parts[0]);
                let size = number_in(ops, &parts[1]);
                assert(is_number_in(ops, item@.items()->0[0], price));
                assert(is_number_in(ops, item@.items()->0[1], size));
                Some((unwrap_or_zero(price), unwrap_or_zero(size)))
            } else {
                None
            }
        },
        None => None,
    }
}

fn read_named<A: Arithmetic>(ops: &A, item: &Json) -> (r: Option<(Double, Double)>)
    ensures
        reads_named(ops, item@, r),
{
    let price = number_at(ops, item, "price");
    assert(is_number_at(ops, item@, "price"@, price));
    match price {
        Some(p) => {
            let size = number_at(ops, item, "size");
            assert(is_number_at(ops, item@, "size"@, size));
            match size {
                Some(s) => Some((p, s)),
                None => None,
            }
        },
        None => None,
    }
}

/// Reads items of the form `[price, size, ..]`.
pub fn read_pairs<A: Arithmetic>(ops: &A, items: &[Json]) -> (r: Vec<(Double, Double)>)
    ensures
        reads_pairs(ops, items@.map_values(|j: Json| j@), r@),
{
    let ghost trees = items@.map_values(|j: Json| j@);
    let ghost mut read: Seq<Option<(Double, Double)>> = Seq::empty();
    let mut out: Vec<(Double, Double)> = Vec::new();
    for i in 0..items.len()
        invariant
            trees == items@.map_values(|j: Json| j@),
            read.len() == i,
            forall|k: int| 0 <= k < i ==> reads_pair(ops, #[trigger] trees[k], read[k]),
            out@ == present(read),
    {
        let level = read_pair(ops, &items[i]);
        proof {
            assert(trees[i as int] == items@[i as int]@);
            assert(read.push(level).drop_last() =~= read);
            read = read.push(level);
        }
        if let Some(l) = level {
            out.push(l);
        }
    }
    assert(reads_each_pair(ops, trees, read));
    out
}

/// Parse price/size levels from items of the form
/// `{"price": .., "size": ..}`.
pub fn parse_levels<A: Arithmetic>(ops: &A, items: &[Json]) -> (r: Vec<(Double, Double)>)
    ensures
        reads_all_named(ops, items@.map_values(|j: Json| j@), r@),
{
    let ghost trees = items@.map_values(|j: Json| j@);
    let ghost mut read: Seq<Option<(Double, Double)>> = Seq::empty();
    let mut out: Vec<(Double, Double)> = Vec::new();
    for i in 0..items.len()
        invariant
            trees == items@.map_values(|j: Json| j@),
            read.len() == i,
            forall|k: int| 0 <= k < i ==> reads_named(ops, #[trigger] trees[k], read[k]),
            out@ == present(read),
    {
        let level = read_named(ops, &items[i]);
        proof {
            assert(trees[i as int] == items@[i as int]@);
            assert(read.push(level).drop_last() =~= read);
            read = read.push(level);
        }
        if let Some(l) = level {
            out.push(l);
        }
    }
    assert(reads_each_named(ops, trees, read));
    out
}

/// Levels that were read alike.
spec fn reads_alike(a: Option<(Double, Double)>, b: Option<(Double, Double)>) -> bool {
    match (a, b) {
        (Some(x), Some(y)) => x.0.alike(y.0) && x.1.alike(y.1),
        (None, None) => true,
        _ => false,
    }
}

proof fn lemma_present_alike(
    a: Seq<Option<(Double, Double)>>,
    b: Seq<Option<(Double, Double)>>,
)
    requires
        a.len() == b.len(),
        forall|i: int| 0 <= i < a.len() ==> reads_alike(#[trigger] a[i], b[i]),
    ensures
        orderbook::entries_alike(present(a), present(b)),
    decreases a.len(),
{
    if a.len() > 0 {
        let c = a.drop_last();
        let d = b.drop_last();
        assert forall|i: int| 0 <= i < c.len() implies reads_alike(#[trigger] c[i], d[i]) by {
            assert(c[i] == a[i] && d[i] == b[i]);
        }
        lemma_present_alike(c, d);
        let n = a.len() - 1;
        assert(reads_alike(a[n], b[n]));
        assert(a.last() == a[n] && b.last() == b[n]);
    }
}

/// With a parser that agrees with itself, items of the form `[price, size, ..]`
/// are read in one way only.
pub proof fn law_pairs_are_read_alike<A: Arithmetic>(
    ops: &A,
    items: Seq<Tree>,
    a: Seq<(Double, Double)>,
    b: Seq<(Double, Double)>,
)
    requires
        arithmetic::parses_alike(ops),
        reads_pairs(ops, items, a),
        reads_pairs(ops, items, b),
    ensures
        orderbook::entries_alike(a, b),
{
    let x = choose|x: Seq<Option<(Double, Double)>>| #[trigger] reads_each_pair(ops, items, x)
        && a == present(x);
    let y = choose|y: Seq<Option<(Double, Double)>>| #[trigger] reads_each_pair(ops, items, y)
        && b == present(y);
    assert forall|i: int| 0 <= i < x.len() implies reads_alike(#[trigger] x[i], y[i]) by {
        assert(reads_pair(ops, items[i], x[i]));
        assert(reads_pair(ops, items[i], y[i]));
    }
    lemma_present_alike(x, y);
}

} // verus!
