//! JSON documents.
use crate::text;
use vstd::prelude::*;

verus! {

/// What a document says.
#[verifier::ext_equal]
pub enum Tree {
    Null,
    Bool(bool),
    /// A number, with its value where that is an integer of 64 bits.
    Number(Option<i64>),
    Text(Seq<char>),
    Items(Seq<Tree>),
    Members(Seq<(Seq<char>, Tree)>),
}

/// The first member of that name.
pub open spec fn member(members: Seq<(Seq<char>, Tree)>, name: Seq<char>) -> Option<Tree>
    decreases members.len(),
{
    if members.len() == 0 {
        None
    } else if members[0].0 == name {
        Some(members[0].1)
    } else {
        member(members.skip(1), name)
    }
}

impl Tree {
    /// The member of that name, where this is an object that has one.
    pub open spec fn get(self, name: Seq<char>) -> Option<Tree> {
        match self {
            Tree::Members(members) => member(members, name),
            _ => None,
        }
    }

    pub open spec fn text(self) -> Option<Seq<char>> {
        match self {
            Tree::Text(s) => Some(s),
            _ => None,
        }
    }

    pub open spec fn integer(self) -> Option<i64> {
        match self {
            Tree::Number(n) => n,
            _ => None,
        }
    }

    pub open spec fn items(self) -> Option<Seq<Tree>> {
        match self {
            Tree::Items(items) => Some(items),
            _ => None,
        }
    }

    /// The text of a member.
    pub open spec fn text_at(self, name: Seq<char>) -> Option<Seq<char>> {
        match self.get(name) {
            Some(t) => t.text(),
            None => None,
        }
    }

    /// The integer of a member.
    pub open spec fn integer_at(self, name: Seq<char>) -> Option<i64> {
        match self.get(name) {
            Some(t) => t.integer(),
            None => None,
        }
    }

    /// The items of a member.
    pub open spec fn items_at(self, name: Seq<char>) -> Option<Seq<Tree>> {
        match self.get(name) {
            Some(t) => t.items(),
            None => None,
        }
    }
}

/// A JSON document.
#[derive(Debug)]
pub enum Json {
    Null,
    Bool(bool),
    /// A number, with its value where that is an integer of 64 bits.
    Number(Option<i64>),
    Text(String),
    Items(Vec<Json>),
    Members(Vec<(String, Json)>),
}

impl Json {
    pub open spec fn view(self) -> Tree
        decreases self,
    {
        match self {
            Json::Null => Tree::Null,
            Json::Bool(b) => Tree::Bool(b),
            Json::Number(n) => Tree::Number(n),
            Json::Text(s) => Tree::Text(s@),
            Json::Items(items) => Tree::Items(
                Seq::new(
                    items@.len(),
                    |i: int|
                        if 0 <= i < items@.len() {
                            items@[i].view()
                        } else {
                            Tree::Null
                        },
                ),
            ),
            Json::Members(members) => Tree::Members(
                Seq::new(
                    members@.len(),
                    |i: int|
                        if 0 <= i < members@.len() {
                            (members@[i].0@, members@[i].1.view())
                        } else {
                            (Seq::empty(), Tree::Null)
                        },
                ),
            ),
        }
    }

    /// The member of that name, where this is an object that has one.
    pub fn get(&self, name: &str) -> (r: Option<&Json>)
        ensures
            match r {
                Some(j) => self@.get(name@) == Some(j@),
                None => self@.get(name@) is None,
            },
    {
        match self {
            Json::Members(members) => {
                let ghost all = self@->Members_0;
                assert(all.skip(0) =~= all);
                for i in 0..members.len()
                    invariant
                        self@ == Tree::Members(all),
                        *self == Json::Members(*members),
                        all.len() == members@.len(),
                        member(all, name@) == member(all.skip(i as int), name@),
                {
                    assert(all[i as int] == (members@[i as int].0@, members@[i as int].1@));
                    assert(all.skip(i as int).skip(1) =~= all.skip(i + 1));
                    if text::same_text(members[i].0.as_str(), name) {
                        return Some(&members[i].1);
                    }
                }
                None
            },
            _ => None,
        }
    }

    pub fn as_str(&self) -> (r: Option<&str>)
        ensures
            match r {
                Some(s) => self@.text() == Some(s@),
                None => self@.text() is None,
            },
    {
        match self {
            Json::Text(s) => Some(s.as_str()),
            _ => None,
        }
    }

    pub fn as_i64(&self) -> (r: Option<i64>)
        ensures
            r == self@.integer(),
    {
        match self {
            Json::Number(n) => *n,
            _ => None,
        }
    }

    pub fn as_array(&self) -> (r: Option<&Vec<Json>>)
        ensures
            match r {
                Some(items) => self@.items() == Some(items@.map_values(|j: Json| j@)),
                None => self@.items() is None,
            },
    {
        match self {
            Json::Items(items) => {
                assert(self@->Items_0 =~= items@.map_values(|j: Json| j@));
                Some(items)
            },
            _ => None,
        }
    }

    /// The text of a member.
    pub fn str_at(&self, name: &str) -> (r: Option<&str>)
        ensures
            match r {
                Some(s) => self@.text_at(name@) == Some(s@),
                None => self@.text_at(name@) is None,
            },
    {
        match self.get(name) {
            Some(j) => j.as_str(),
            None => None,
        }
    }

    /// The integer of a member.
    pub fn i64_at(&self, name: &str) -> (r: Option<i64>)
        ensures
            r == self@.integer_at(name@),
    {
        match self.get(name) {
            Some(j) => j.as_i64(),
            None => None,
        }
    }

    /// The items of a member.
    pub fn array_at(&self, name: &str) -> (r: Option<&Vec<Json>>)
        ensures
            match r {
                Some(items) => self@.items_at(name@) == Some(items@.map_values(|j: Json| j@)),
                None => self@.items_at(name@) is None,
            },
    {
        match self.get(name) {
            Some(j) => j.as_array(),
            None => None,
        }
    }
}

/// A document as `serde_json` holds it.
#[verifier::external_type_specification]
#[verifier::external_body]
pub struct ExValue(serde_json::Value);

/// What a document that `serde_json` holds says.
pub uninterp spec fn value_tree(v: serde_json::Value) -> Tree;

/// What `serde_json::from_str` reads in a text, where it is a document.
pub uninterp spec fn text_tree(text: Seq<char>) -> Option<Tree>;

/// A document with its outermost layer taken apart.
pub enum Node {
    Null,
    Bool(bool),
    Number(Option<i64>),
    Text(String),
    Items(Vec<serde_json::Value>),
    Members(Vec<(String, serde_json::Value)>),
}

impl Node {
    pub open spec fn view(self) -> Tree {
        match self {
            Node::Null => Tree::Null,
            Node::Bool(b) => Tree::Bool(b),
            Node::Number(n) => Tree::Number(n),
            Node::Text(s) => Tree::Text(s@),
            Node::Items(items) => Tree::Items(
                Seq::new(items@.len(), |i: int| value_tree(items@[i])),
            ),
            Node::Members(members) => Tree::Members(
                Seq::new(members@.len(), |i: int| (members@[i].0@, value_tree(members@[i].1))),
            ),
        }
    }
}

/// Calls `serde_json::from_str`. Claimed of it: whether a text is a document,
/// and what that document says, depends on the text alone.
#[verifier::external_body]
fn read_value(text: &str) -> (r: Option<serde_json::Value>)
    ensures
        match r {
            Some(v) => text_tree(text@) == Some(value_tree(v)),
            None => text_tree(text@) is None,
        },
{
    serde_json::from_str::<serde_json::Value>(text).ok()
}

/// Takes the outermost layer of a `serde_json::Value` apart, one variant for
/// one. Claimed of it: the parts say together what the value said.
#[verifier::external_body]
fn open_value(v: serde_json::Value) -> (r: Node)
    ensures
        r@ == value_tree(v),
{
    match v {
        serde_json::Value::Null => Node::Null,
        serde_json::Value::Bool(b) => Node::Bool(b),
        serde_json::Value::Number(n) => Node::Number(n.as_i64()),
        serde_json::Value::String(s) => Node::Text(s),
        serde_json::Value::Array(items) => Node::Items(items),
        serde_json::Value::Object(members) => Node::Members(members.into_iter().collect()),
    }
}

/// A document in this library's own type.
fn from_value(v: serde_json::Value) -> (r: Json)
    ensures
        r@ == value_tree(v),
    decreases value_tree(v),
{
    let node = open_value(v);
    match node {
        Node::Null => Json::Null,
        Node::Bool(b) => Json::Bool(b),
        Node::Number(n) => Json::Number(n),
        Node::Text(s) => Json::Text(s),
        Node::Items(items) => {
            let ghost all = items@;
            let ghost tree = value_tree(v)->Items_0;
            let mut out: Vec<Json> = Vec::new();
            for item in it: items
                invariant
                    value_tree(v) == Tree::Items(tree),
                    tree == Seq::new(all.len(), |i: int| value_tree(all[i])),
                    it.seq() == all,
                    out@.len() == it.index(),
                    forall|i: int| 0 <= i < out@.len() ==> (#[trigger] out@[i])@ == tree[i],
            {
                let ghost at = it.index();
                assert(value_tree(v)->Items_0[at] == value_tree(item));
                assert(decreases_to!(value_tree(v) => value_tree(v)->Items_0));
                assert(decreases_to!(value_tree(v)->Items_0 => value_tree(v)->Items_0[at]));
                out.push(from_value(item));
            }
            let r = Json::Items(out);
            assert(r@->Items_0 =~= tree);
            r
        },
        Node::Members(members) => {
            let ghost all = members@;
            let ghost tree = value_tree(v)->Members_0;
            let mut out: Vec<(String, Json)> = Vec::new();
            for entry in it: members
                invariant
                    value_tree(v) == Tree::Members(tree),
                    tree == Seq::new(all.len(), |i: int| (all[i].0@, value_tree(all[i].1))),
                    it.seq() == all,
                    out@.len() == it.index(),
                    forall|i: int|
                        0 <= i < out@.len() ==> ((#[trigger] out@[i]).0@, out@[i].1@) == tree[i],
            {
                let ghost at = it.index();
                let (name, value) = entry;
                assert(tree[at] == (name@, value_tree(value)));
                assert(decreases_to!(value_tree(v) => value_tree(v)->Members_0));
                assert(decreases_to!(value_tree(v)->Members_0 => value_tree(v)->Members_0[at]));
                assert(decreases_to!(value_tree(v)->Members_0[at] => value_tree(v)->Members_0[at].1));
                out.push((name, from_value(value)));
            }
            let r = Json::Members(out);
            assert(r@->Members_0 =~= tree);
            r
        },
    }
}

/// Reads a text as a JSON document.
pub fn parse_json(text: &str) -> (r: Option<Json>)
    ensures
        match r {
            Some(j) => text_tree(text@) == Some(j@),
            None => text_tree(text@) is None,
        },
{
    match read_value(text) {
        Some(v) => Some(from_value(v)),
        None => None,
    }
}

/// The names and texts of members.
pub open spec fn text_pairs(members: Seq<(String, String)>) -> Seq<(Seq<char>, Seq<char>)> {
    members.map_values(|m: (String, String)| (m.0@, m.1@))
}

/// No two members have the same name.
pub open spec fn distinct_names(members: Seq<(Seq<char>, Seq<char>)>) -> bool {
    forall|i: int, j: int|
        0 <= i < j < members.len() ==> (#[trigger] members[i]).0 != (#[trigger] members[j]).0
}

/// A document says that each of the members is there, with its text.
pub open spec fn says(t: Tree, members: Seq<(Seq<char>, Seq<char>)>) -> bool {
    forall|i: int|
        0 <= i < members.len() ==> t.text_at((#[trigger] members[i]).0) == Some(members[i].1)
}

/// What `serde_json` writes for an object whose members are texts.
pub uninterp spec fn object_text(members: Seq<(Seq<char>, Seq<char>)>) -> Seq<char>;

/// Calls `serde_json::Value::to_string` on an object whose members are texts.
/// Claimed of it: what is written depends on the members alone, and where no
/// two have the same name it is a document that says each of them.
#[verifier::external_body]
pub(crate) fn write_object(members: Vec<(String, String)>) -> (r: String)
    ensures
        r@ == object_text(text_pairs(members@)),
        distinct_names(text_pairs(members@)) ==> text_tree(r@) is Some && says(
            text_tree(r@)->0,
            text_pairs(members@),
        ),
{
    serde_json::Value::Object(
        members.into_iter().map(|(k, v)| (k, serde_json::Value::String(v))).collect(),
    ).to_string()
}

} // verus!
