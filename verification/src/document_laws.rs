//! What is read in documents: members, numbers and price levels.
use crate::arithmetic;
use crate::arithmetic::Arithmetic;
use crate::double::Double;
use crate::json;
use crate::json::{Json, Tree};
use crate::levels;
use crate::text;
use vstd::prelude::*;

verus! {

/// `at` is the first of the members of that name.
pub open spec fn is_first_member(
    members: Seq<(Seq<char>, Tree)>,
    name: Seq<char>,
    at: int,
) -> bool {
    &&& 0 <= at < members.len()
    &&& members[at].0 == name
    &&& forall|i: int| 0 <= i < at ==> (#[trigger] members[i]).0 != name
}

proof fn lemma_member_is_first(members: Seq<(Seq<char>, Tree)>, name: Seq<char>)
    ensures
        forall|at: int| #[trigger]
            is_first_member(members, name, at) ==> json::member(members, name) == Some(
                members[at].1,
            ),
        (forall|i: int| 0 <= i < members.len() ==> (#[trigger] members[i]).0 != name)
            ==> json::member(members, name) is None,
    decreases members.len(),
{
    if members.len() > 0 {
        let rest = members.skip(1);
        lemma_member_is_first(rest, name);
        assert forall|at: int| #[trigger] is_first_member(members, name, at) implies json::member(
            members,
            name,
        ) == Some(members[at].1) by {
            if at > 0 {
                assert(members[0].0 != name);
                assert forall|i: int| 0 <= i < at - 1 implies (#[trigger] rest[i]).0 != name by {
                    assert(rest[i] == members[i + 1]);
                }
                assert(rest[at - 1] == members[at]);
                assert(is_first_member(rest, name, at - 1));
            }
        }
        if forall|i: int| 0 <= i < members.len() ==> (#[trigger] members[i]).0 != name {
            assert(members[0].0 != name);
            assert forall|i: int| 0 <= i < rest.len() implies (#[trigger] rest[i]).0 != name by {
                assert(rest[i] == members[i + 1]);
            }
        }
    }
}

/// The member of a name is the first of that name in an object; its text,
/// integer or items are there where it is a text, an integer or a list. What is
/// no object, or lacks the name, has none.
pub proof fn law_members_are_found_by_name(
    members: Seq<(Seq<char>, Tree)>,
    name: Seq<char>,
    at: int,
)
    requires
        is_first_member(members, name, at),
    ensures
        Tree::Members(members).get(name) == Some(members[at].1),
        members[at].1 matches Tree::Text(s) ==> Tree::Members(members).text_at(name) == Some(s),
        members[at].1 !is Text ==> Tree::Members(members).text_at(name) is None,
        members[at].1 matches Tree::Number(n) ==> Tree::Members(members).integer_at(name) == n,
        members[at].1 !is Number ==> Tree::Members(members).integer_at(name) is None,
        members[at].1 matches Tree::Items(s) ==> Tree::Members(members).items_at(name) == Some(s),
        members[at].1 !is Items ==> Tree::Members(members).items_at(name) is None,
{
    lemma_member_is_first(members, name);
}

/// A document without the name has no member of it.
pub proof fn law_missing_members_are_none(t: Tree, name: Seq<char>)
    requires
        t matches Tree::Members(members) ==> forall|i: int|
            0 <= i < members.len() ==> (#[trigger] members[i]).0 != name,
    ensures
        t.get(name) is None,
        t.text_at(name) is None,
        t.integer_at(name) is None,
        t.items_at(name) is None,
{
    if let Tree::Members(members) = t {
        lemma_member_is_first(members, name);
    }
}

/// A document says what it is made of.
pub proof fn law_documents_say_what_they_hold(
    text: String,
    items: Vec<Json>,
    members: Vec<(String, Json)>,
    n: Option<i64>,
    b: bool,
)
    ensures
        Json::Null@ == Tree::Null,
        Json::Bool(b)@ == Tree::Bool(b),
        Json::Number(n)@ == Tree::Number(n),
        Json::Text(text)@ == Tree::Text(text@),
        Json::Items(items)@ is Items,
        Json::Items(items)@->Items_0.len() == items@.len(),
        forall|i: int|
            0 <= i < items@.len() ==> #[trigger] Json::Items(items)@->Items_0[i] == items@[i]@,
        Json::Members(members)@ is Members,
        Json::Members(members)@->Members_0.len() == members@.len(),
        forall|i: int|
            0 <= i < members@.len() ==> #[trigger] Json::Members(members)@->Members_0[i] == (
                members@[i].0@,
                members@[i].1@,
            ),
{
    reveal_with_fuel(Json::view, 2);
}

/// What is looked up in a document is what it says.
pub proof fn law_lookups_are_of_what_is_said(
    j: &Json,
    name: &str,
    got: Option<&Json>,
    text: Option<&str>,
    integer: Option<i64>,
    items: Option<&Vec<Json>>,
)
    requires
        call_ensures(Json::get, (j, name), got),
        call_ensures(Json::str_at, (j, name), text),
        call_ensures(Json::i64_at, (j, name), integer),
        call_ensures(Json::array_at, (j, name), items),
    ensures
        got is Some <==> j@.get(name@) is Some,
        got matches Some(m) ==> j@.get(name@) == Some(m@),
        text is Some <==> j@.text_at(name@) is Some,
        text matches Some(s) ==> j@.text_at(name@) == Some(s@),
        integer == j@.integer_at(name@),
        items is Some <==> j@.items_at(name@) is Some,
        items matches Some(v) ==> j@.items_at(name@)->0.len() == v@.len() && forall|i: int|
            0 <= i < v@.len() ==> #[trigger] j@.items_at(name@)->0[i] == v@[i]@,
{
}

/// The parser reads a text as a number.
pub open spec fn reads_as<A: Arithmetic>(ops: &A, s: Seq<char>, x: Double) -> bool {
    forall|r: Option<Double>| #[trigger] arithmetic::is_parse(ops, s, r) ==> r == Some(x)
}

/// The parser reads no number in a text.
pub open spec fn reads_none<A: Arithmetic>(ops: &A, s: Seq<char>) -> bool {
    forall|r: Option<Double>| #[trigger] arithmetic::is_parse(ops, s, r) ==> r is None
}

/// A document is a text that reads as a number.
pub open spec fn is_number<A: Arithmetic>(ops: &A, t: Tree, x: Double) -> bool {
    t matches Tree::Text(s) && reads_as(ops, s, x)
}

/// A document is no text, or one that reads as no number.
pub open spec fn is_no_number<A: Arithmetic>(ops: &A, t: Tree) -> bool {
    t matches Tree::Text(s) ==> reads_none(ops, s)
}

/// The member of a name is a text that reads as a number.
pub open spec fn holds_number<A: Arithmetic>(ops: &A, t: Tree, name: Seq<char>, x: Double) -> bool {
    t.text_at(name) matches Some(s) && reads_as(ops, s, x)
}

/// The member of a name is missing, is no text, or reads as no number.
pub open spec fn holds_no_number<A: Arithmetic>(ops: &A, t: Tree, name: Seq<char>) -> bool {
    t.text_at(name) matches Some(s) ==> reads_none(ops, s)
}

/// Numbers are read in texts, and nowhere else.
pub proof fn law_numbers_are_read_in_texts<A: Arithmetic>(
    ops: &A,
    j: &Json,
    name: &str,
    own: Option<Double>,
    member: Option<Double>,
)
    requires
        call_ensures(levels::number_in::<A>, (ops, j), own),
        call_ensures(levels::number_at::<A>, (ops, j, name), member),
    ensures
        forall|x: Double| #[trigger] is_number(ops, j@, x) ==> own == Some(x),
        is_no_number(ops, j@) ==> own is None,
        forall|x: Double| #[trigger] holds_number(ops, j@, name@, x) ==> member == Some(x),
        holds_no_number(ops, j@, name@) ==> member is None,
{
    lemma_number_in(ops, j@, own);
    lemma_number_at(ops, j@, name@, member);
}

pub proof fn lemma_number_in<A: Arithmetic>(ops: &A, t: Tree, r: Option<Double>)
    requires
        levels::is_number_in(ops, t, r),
    ensures
        forall|x: Double| #[trigger] is_number(ops, t, x) ==> r == Some(x),
        is_no_number(ops, t) ==> r is None,
{
}

pub proof fn lemma_number_at<A: Arithmetic>(
    ops: &A,
    t: Tree,
    name: Seq<char>,
    r: Option<Double>,
)
    requires
        levels::is_number_at(ops, t, name, r),
    ensures
        forall|x: Double| #[trigger] holds_number(ops, t, name, x) ==> r == Some(x),
        holds_no_number(ops, t, name) ==> r is None,
{
}

/// `picked[i]` is the level that item `i` stands for, where it stands for one.
/// An object stands for the numbers of its members `price` and `size`, where it
/// has both.
pub open spec fn picks_named<A: Arithmetic>(
    ops: &A,
    items: Seq<Tree>,
    picked: Seq<Option<(Double, Double)>>,
) -> bool {
    &&& picked.len() == items.len()
    &&& forall|i: int|
        0 <= i < items.len() ==> match #[trigger] picked[i] {
            Some(level) => holds_number(ops, items[i], "price"@, level.0) && holds_number(
                ops,
                items[i],
                "size"@,
                level.1,
            ),
            None => holds_no_number(ops, items[i], "price"@) || holds_no_number(
                ops,
                items[i],
                "size"@,
            ),
        }
}

/// The number of a document, where it reads as one, else zero.
pub open spec fn stands_for<A: Arithmetic>(ops: &A, t: Tree, x: Double) -> bool {
    is_number(ops, t, x) || is_no_number(ops, t) && x == Double::zero()
}

/// `picked[i]` is the level that item `i` stands for, where it stands for one. A
/// list of at least two stands for the numbers of the first two, zero for what
/// is no number.
pub open spec fn picks_pairs<A: Arithmetic>(
    ops: &A,
    items: Seq<Tree>,
    picked: Seq<Option<(Double, Double)>>,
) -> bool {
    &&& picked.len() == items.len()
    &&& forall|i: int|
        0 <= i < items.len() ==> match #[trigger] picked[i] {
            Some(level) => items[i] matches Tree::Items(parts) && parts.len() >= 2 && stands_for(
                ops,
                parts[0],
                level.0,
            ) && stands_for(ops, parts[1], level.1),
            None => items[i] matches Tree::Items(parts) ==> parts.len() < 2,
        }
}

/// How many of the first `n` stand for a level.
pub open spec fn picked_before(picked: Seq<Option<(Double, Double)>>, n: int) -> int
    decreases n,
{
    if n <= 0 {
        0
    } else {
        picked_before(picked, n - 1) + if picked[n - 1] is Some {
            1int
        } else {
            0int
        }
    }
}

/// `levels` are the picked ones, one for each, in order.
pub open spec fn are_in_order(
    picked: Seq<Option<(Double, Double)>>,
    levels: Seq<(Double, Double)>,
) -> bool {
    &&& levels.len() == picked_before(picked, picked.len() as int)
    &&& forall|i: int|
        0 <= i < picked.len() && (#[trigger] picked[i]) is Some ==> 0 <= picked_before(picked, i)
            < levels.len() && levels[picked_before(picked, i)] == picked[i]->0
}

proof fn lemma_picked_grows(picked: Seq<Option<(Double, Double)>>, m: int, n: int)
    requires
        0 <= m <= n,
    ensures
        0 <= picked_before(picked, m) <= picked_before(picked, n),
        m < n && picked[m] is Some ==> picked_before(picked, m) < picked_before(picked, n),
    decreases n,
{
    if m < n {
        lemma_picked_grows(picked, m, n - 1);
    } else if m > 0 {
        lemma_picked_grows(picked, m - 1, m - 1);
    }
}

proof fn lemma_picked_before_of_prefix(
    a: Seq<Option<(Double, Double)>>,
    b: Seq<Option<(Double, Double)>>,
    n: int,
)
    requires
        0 <= n <= a.len() <= b.len(),
        forall|i: int| 0 <= i < a.len() ==> a[i] == b[i],
    ensures
        picked_before(a, n) == picked_before(b, n),
    decreases n,
{
    if n > 0 {
        lemma_picked_before_of_prefix(a, b, n - 1);
    }
}

proof fn lemma_present_in_order(picked: Seq<Option<(Double, Double)>>)
    ensures
        are_in_order(picked, levels::present(picked)),
    decreases picked.len(),
{
    if picked.len() > 0 {
        let before = picked.drop_last();
        let n = before.len() as int;
        lemma_present_in_order(before);
        lemma_picked_before_of_prefix(before, picked, n);
        let out = levels::present(picked);
        assert forall|i: int| 0 <= i < picked.len() && (#[trigger] picked[i]) is Some implies 0
            <= picked_before(picked, i) < out.len() && out[picked_before(picked, i)]
            == picked[i]->0 by {
            lemma_picked_grows(picked, i, n + 1);
            if i < n {
                assert(before[i] == picked[i]);
                lemma_picked_before_of_prefix(before, picked, i);
            } else {
                assert(picked[n] == picked.last());
            }
        }
    }
}

/// Levels are read from objects with a price and a size, one for each that has
/// both, in order.
pub proof fn law_named_levels_are_read_in_order<A: Arithmetic>(
    ops: &A,
    items: Seq<Tree>,
    picked: Seq<Option<(Double, Double)>>,
    r: Seq<(Double, Double)>,
)
    requires
        levels::reads_all_named(ops, items, r),
        picks_named(ops, items, picked),
    ensures
        are_in_order(picked, r),
{
    let read = choose|read: Seq<Option<(Double, Double)>>| #[trigger]
        levels::reads_each_named(ops, items, read) && r == levels::present(read);
    assert forall|i: int| 0 <= i < items.len() implies read[i] == picked[i] by {
        assert(levels::reads_named(ops, items[i], read[i]));
        let price = choose|price: Option<Double>| #[trigger]
            levels::is_number_at(ops, items[i], "price"@, price) && match price {
                Some(p) => exists|size: Option<Double>| #[trigger]
                    levels::is_number_at(ops, items[i], "size"@, size) && read[i] == match size {
                        Some(s) => Some((p, s)),
                        None => None,
                    },
                None => read[i] is None,
            };
        lemma_number_at(ops, items[i], "price"@, price);
        if let Some(p) = price {
            let size = choose|size: Option<Double>| #[trigger]
                levels::is_number_at(ops, items[i], "size"@, size) && read[i] == match size {
                    Some(s) => Some((p, s)),
                    None => None,
                };
            lemma_number_at(ops, items[i], "size"@, size);
        }
        match picked[i] {
            Some(level) => {
                assert(holds_number(ops, items[i], "price"@, level.0));
                assert(holds_number(ops, items[i], "size"@, level.1));
            },
            None => {},
        }
    }
    assert(read =~= picked);
    lemma_present_in_order(picked);
}

/// Levels are read from lists of a price and a size, one for each that has two
/// items, in order.
pub proof fn law_paired_levels_are_read_in_order<A: Arithmetic>(
    ops: &A,
    items: Seq<Tree>,
    picked: Seq<Option<(Double, Double)>>,
    r: Seq<(Double, Double)>,
)
    requires
        levels::reads_pairs(ops, items, r),
        picks_pairs(ops, items, picked),
    ensures
        are_in_order(picked, r),
{
    let read = choose|read: Seq<Option<(Double, Double)>>| #[trigger]
        levels::reads_each_pair(ops, items, read) && r == levels::present(read);
    assert forall|i: int| 0 <= i < items.len() implies read[i] == picked[i] by {
        assert(levels::reads_pair(ops, items[i], read[i]));
        match picked[i] {
            Some(level) => {
                let parts = items[i]->Items_0;
                let (price, size) = choose|price: Option<Double>, size: Option<Double>| #[trigger]
                    levels::is_number_in(ops, parts[0], price) && #[trigger] levels::is_number_in(
                        ops,
                        parts[1],
                        size,
                    ) && read[i] == Some((levels::or_zero(price), levels::or_zero(size)));
                lemma_number_in(ops, parts[0], price);
                lemma_number_in(ops, parts[1], size);
                assert(stands_for(ops, parts[0], level.0));
                assert(stands_for(ops, parts[1], level.1));
            },
            None => {},
        }
    }
    assert(read =~= picked);
    lemma_present_in_order(picked);
}

/// What is parsed from items is read from them.
pub proof fn law_parsed_levels_are_read<A: Arithmetic>(
    ops: &A,
    items: &[Json],
    named: Vec<(Double, Double)>,
    paired: Vec<(Double, Double)>,
    picked: Seq<Option<(Double, Double)>>,
)
    requires
        call_ensures(levels::parse_levels::<A>, (ops, items), named),
        call_ensures(levels::read_pairs::<A>, (ops, items), paired),
    ensures
        picks_named(ops, items@.map_values(|j: Json| j@), picked) ==> are_in_order(picked, named@),
        picks_pairs(ops, items@.map_values(|j: Json| j@), picked) ==> are_in_order(picked, paired@),
{
    let trees = items@.map_values(|j: Json| j@);
    if picks_named(ops, trees, picked) {
        law_named_levels_are_read_in_order(ops, trees, picked, named@);
    }
    if picks_pairs(ops, trees, picked) {
        law_paired_levels_are_read_in_order(ops, trees, picked, paired@);
    }
}

/// A text stands in another exactly if that is something, the text, and
/// something more.
pub proof fn law_occurrences_split_a_text(hay: Seq<char>, needle: Seq<char>)
    ensures
        text::occurs(hay, needle) <==> exists|a: Seq<char>, b: Seq<char>|
            hay == #[trigger] (a + needle + b),
{
    if text::occurs(hay, needle) {
        let at = choose|at: int| #[trigger] text::stands_at(hay, needle, at);
        let a = hay.take(at);
        let b = hay.skip(at + needle.len());
        assert(hay =~= a + needle + b) by {
            assert forall|i: int| 0 <= i < hay.len() implies hay[i] == (a + needle + b)[i] by {
                if at <= i < at + needle.len() {
                    assert(hay.subrange(at, at + needle.len())[i - at] == hay[i]);
                }
            }
        }
    }
    if exists|a: Seq<char>, b: Seq<char>| hay == #[trigger] (a + needle + b) {
        let (a, b) = choose|a: Seq<char>, b: Seq<char>| hay == #[trigger] (a + needle + b);
        assert(hay.subrange(a.len() as int, (a.len() + needle.len()) as int) =~= needle);
        assert(text::stands_at(hay, needle, a.len() as int));
    }
}

/// Two letters are the same but for ASCII case.
pub open spec fn same_letter(c: char, d: char) -> bool {
    ||| c == d
    ||| 'A' <= c <= 'Z' && d as u32 == c as u32 + 32
    ||| 'A' <= d <= 'Z' && c as u32 == d as u32 + 32
}

/// Two texts are the same but for ASCII case.
pub open spec fn same_letters(a: Seq<char>, b: Seq<char>) -> bool {
    a.len() == b.len() && forall|i: int| 0 <= i < a.len() ==> #[trigger] same_letter(a[i], b[i])
}

/// Lower-case forms are equal exactly for texts that are the same but for ASCII
/// case; neither form changes more than that, an upper-case form has no small
/// letter and a lower-case form no capital.
pub proof fn law_ascii_case_is_of_letters_alone(a: Seq<char>, b: Seq<char>)
    ensures
        text::ascii_lowered(a) == text::ascii_lowered(b) <==> same_letters(a, b),
        same_letters(a, text::ascii_lowered(a)),
        same_letters(a, text::ascii_uppered(a)),
        forall|i: int|
            0 <= i < a.len() ==> !('A' <= #[trigger] text::ascii_lowered(a)[i] <= 'Z'),
        forall|i: int|
            0 <= i < a.len() ==> !('a' <= #[trigger] text::ascii_uppered(a)[i] <= 'z'),
{
    let x = text::ascii_lowered(a);
    let y = text::ascii_lowered(b);
    if x == y {
        assert(a.len() == x.len() && b.len() == y.len());
        assert forall|i: int| 0 <= i < a.len() implies #[trigger] same_letter(a[i], b[i]) by {
            assert(x[i] == text::ascii_lower(a[i]));
            assert(y[i] == text::ascii_lower(b[i]));
        }
    }
    if same_letters(a, b) {
        assert forall|i: int| 0 <= i < a.len() implies x[i] == y[i] by {
            assert(same_letter(a[i], b[i]));
        }
        assert(x =~= y);
    }
}

/// The number that a text of decimal digits stands for.
pub open spec fn digits_value(s: Seq<char>) -> int
    decreases s.len(),
{
    if s.len() == 0 {
        0
    } else {
        10 * digits_value(s.drop_last()) + (s.last() as int - '0' as int)
    }
}

/// A number in decimal reads back as that number; it is made of digits, the first
/// of which is no zero but for zero itself.
pub proof fn law_decimal_reads_back(n: nat)
    ensures
        digits_value(text::decimal(n)) == n,
        text::decimal(n).len() > 0,
        forall|i: int|
            0 <= i < text::decimal(n).len() ==> '0' <= #[trigger] text::decimal(n)[i] <= '9',
        n > 0 ==> text::decimal(n)[0] != '0',
    decreases n,
{
    let s = text::decimal(n);
    reveal_with_fuel(digits_value, 2);
    if n >= 10 {
        law_decimal_reads_back(n / 10);
        let before = text::decimal(n / 10);
        assert(s == before.push(text::digit(n % 10)));
        assert(s.drop_last() =~= before);
        assert(s[0] == before[0]);
        assert forall|i: int| 0 <= i < s.len() implies '0' <= #[trigger] s[i] <= '9' by {
            if i < before.len() {
                assert(s[i] == before[i]);
            }
        }
    } else {
        assert(s == seq![text::digit(n)]);
        assert(s.drop_last() =~= Seq::empty());
    }
}

/// A document is a text, an integer or a list exactly if it says so; a text is
/// read as the document that it is, if it is one.
pub proof fn law_documents_are_taken_as_they_are(
    j: &Json,
    s: Option<&str>,
    n: Option<i64>,
    items: Option<&Vec<Json>>,
    body: &str,
    read: Option<Json>,
)
    requires
        call_ensures(Json::as_str, (j,), s),
        call_ensures(Json::as_i64, (j,), n),
        call_ensures(Json::as_array, (j,), items),
        call_ensures(json::parse_json, (body,), read),
    ensures
        s is Some <==> j@ is Text,
        s matches Some(s) ==> j@ == Tree::Text(s@),
        n is Some <==> (j@ matches Tree::Number(Some(_))),
        n matches Some(n) ==> j@ == Tree::Number(Some(n)),
        items is Some <==> j@ is Items,
        items matches Some(v) ==> j@->Items_0.len() == v@.len() && forall|i: int|
            0 <= i < v@.len() ==> #[trigger] j@->Items_0[i] == v@[i]@,
        read is Some <==> json::text_tree(body@) is Some,
        read matches Some(d) ==> json::text_tree(body@) == Some(d@),
{
}

/// Texts are the same exactly if they have the same characters in the same order;
/// one holds another exactly if it is something, the other, and something more;
/// they are the same but for letter case exactly if their characters are.
pub proof fn law_texts_compare_by_characters(
    a: &str,
    b: &str,
    chars: Vec<char>,
    same: bool,
    holds: bool,
    alike: bool,
)
    requires
        call_ensures(text::chars_of, (a,), chars),
        call_ensures(text::same_text, (a, b), same),
        call_ensures(text::contains_text, (a, b), holds),
        call_ensures(text::same_ignoring_ascii_case, (a, b), alike),
    ensures
        chars@.len() == a@.len(),
        forall|i: int| 0 <= i < a@.len() ==> #[trigger] chars@[i] == a@[i],
        same <==> a@.len() == b@.len() && forall|i: int|
            0 <= i < a@.len() ==> #[trigger] a@[i] == b@[i],
        holds <==> exists|x: Seq<char>, y: Seq<char>| a@ == #[trigger] (x + b@ + y),
        alike <==> same_letters(a@, b@),
{
    law_occurrences_split_a_text(a@, b@);
    law_ascii_case_is_of_letters_alone(a@, b@);
    if a@.len() == b@.len() && forall|i: int| 0 <= i < a@.len() ==> #[trigger] a@[i] == b@[i] {
        assert(a@ =~= b@);
    }
}

/// A number is written behind a text in decimal, and reads back from there.
pub proof fn law_numbers_are_written_behind(
    a: &mut String,
    n: u64,
    b: &mut String,
    m: i64,
)
    requires
        call_ensures(text::append_decimal, (a, n), ()),
        call_ensures(text::append_signed, (b, m), ()),
    ensures
        exists|d: Seq<char>|
            final(a)@ == old(a)@ + d && #[trigger] digits_value(d) == n && d.len() > 0 && (n > 0
                ==> d[0] != '0'),
        m >= 0 ==> exists|d: Seq<char>|
            final(b)@ == old(b)@ + d && #[trigger] digits_value(d) == m && d.len() > 0 && (m > 0
                ==> d[0] != '0'),
        m < 0 ==> exists|d: Seq<char>|
            final(b)@ == old(b)@ + (seq!['-'] + d) && #[trigger] digits_value(d) == -m && d.len()
                > 0 && d[0] != '0',
{
    law_decimal_reads_back(n as nat);
    if m < 0 {
        law_decimal_reads_back((-m) as nat);
    } else {
        law_decimal_reads_back(m as nat);
    }
}

} // verus!
