//! JSON values of the block engine's replies and requests, and lookups in them.

use crate::text::{
    decimal, law_decimal_text_has_no_leading_zero, law_decimal_text_reads_back,
    law_only_digits_are_a_number, parse_unsigned, same_text, unsigned_value,
};
use vstd::prelude::*;
use vstd::string::*;

verus! {

/// A JSON value. Numbers are kept as their text.
#[derive(Debug, PartialEq, Eq)]
pub enum Json {
    Null,
    Bool(bool),
    Number(String),
    Text(String),
    Array(Vec<Json>),
    Object(Vec<(String, Json)>),
}

/// The value of the first member named `key`.
pub open spec fn member(fields: Seq<(String, Json)>, key: Seq<char>) -> Option<Json>
    decreases fields.len(),
{
    if fields.len() == 0 {
        None
    } else if fields[0].0@ == key {
        Some(fields[0].1)
    } else {
        member(fields.skip(1), key)
    }
}

/// The array position that a path token names: decimal digits without a sign
/// and without leading zeros.
pub open spec fn array_position(token: Seq<char>) -> Option<nat> {
    if token.len() > 0 && (token[0] == '+' || (token[0] == '0' && token.len() > 1)) {
        None
    } else {
        unsigned_value(token, usize::MAX as nat)
    }
}

impl Json {
    /// The value one step down: the member of an object, or the element of an array.
    pub open spec fn child(self, token: Seq<char>) -> Option<Json> {
        match self {
            Json::Object(fields) => member(fields@, token),
            Json::Array(items) => match array_position(token) {
                Some(i) if i < items@.len() => Some(items@[i as int]),
                _ => None,
            },
            _ => None,
        }
    }

    /// The value at the end of a path of tokens.
    pub open spec fn at(self, path: Seq<&str>) -> Option<Json>
        decreases path.len(),
    {
        if path.len() == 0 {
            Some(self)
        } else {
            match self.child(path[0]@) {
                Some(value) => value.at(path.skip(1)),
                None => None,
            }
        }
    }

    /// The text of a string value.
    pub open spec fn text(self) -> Option<Seq<char>> {
        match self {
            Json::Text(text) => Some(text@),
            _ => None,
        }
    }

    /// The value one step down: the member of an object, or the element of an array.
    pub fn get(&self, token: &str) -> (value: Option<&Json>)
        ensures
            match value {
                Some(v) => self.child(token@) == Some(*v),
                None => self.child(token@) is None,
            },
    {
        match self {
            Json::Object(fields) => {
                let mut i: usize = 0;
                assert(fields@.skip(0) =~= fields@);
                while i < fields.len()
                    invariant
                        i <= fields@.len(),
                        *self == Json::Object(*fields),
                        member(fields@, token@) == member(fields@.skip(i as int), token@),
                    decreases fields@.len() - i,
                {
                    assert(fields@.skip(i as int)[0] == fields@[i as int]);
                    if same_text(fields[i].0.as_str(), token) {
                        return Some(&fields[i].1);
                    }
                    assert(fields@.skip(i as int).skip(1) =~= fields@.skip(i + 1));
                    i = i + 1;
                }
                None
            },
            Json::Array(items) => {
                let n: usize = token.unicode_len();
                if n > 0 && (token.get_char(0) == '+' || (token.get_char(0) == '0' && n > 1)) {
                    return None;
                }
                match parse_unsigned(token, usize::MAX as u64) {
                    Some(i) => if i < items.len() as u64 {
                        Some(&items[i as usize])
                    } else {
                        None
                    },
                    None => None,
                }
            },
            _ => None,
        }
    }

    /// The value at the end of a path of tokens.
    pub fn pointer(&self, path: &[&str]) -> (value: Option<&Json>)
        ensures
            match value {
                Some(v) => self.at(path@) == Some(*v),
                None => self.at(path@) is None,
            },
    {
        let mut here: &Json = self;
        let mut i: usize = 0;
        assert(path@.skip(0) =~= path@);
        while i < path.len()
            invariant
                i <= path@.len(),
                self.at(path@) == here.at(path@.skip(i as int)),
            decreases path@.len() - i,
        {
            assert(path@.skip(i as int)[0] == path@[i as int]);
            assert(path@.skip(i as int).skip(1) =~= path@.skip(i + 1));
            match here.get(path[i]) {
                Some(value) => here = value,
                None => return None,
            }
            i = i + 1;
        }
        Some(here)
    }

    /// The text of a string value.
    pub fn as_text(&self) -> (text: Option<&String>)
        ensures
            match text {
                Some(t) => self.text() == Some(t@),
                None => self.text() is None,
            },
    {
        match self {
            Json::Text(text) => Some(text),
            _ => None,
        }
    }
}

/// A member of an object is found by its name, whatever the other members are
/// named; of several with one name the first is found, and where none has the
/// name nothing is.
pub proof fn law_a_member_is_found_by_its_name(fields: Vec<(String, Json)>, key: Seq<char>, i: int)
    ensures
        0 <= i < fields@.len() && fields@[i].0@ == key && (forall|j: int|
            0 <= j < i ==> (#[trigger] fields@[j]).0@ != key) ==> Json::Object(fields).child(key)
            == Some(fields@[i].1),
        (forall|j: int| 0 <= j < fields@.len() ==> (#[trigger] fields@[j]).0@ != key)
            <==> Json::Object(fields).child(key) is None,
{
    lemma_member(fields@, key, i);
}

proof fn lemma_member(fields: Seq<(String, Json)>, key: Seq<char>, i: int)
    ensures
        0 <= i < fields.len() && fields[i].0@ == key && (forall|j: int|
            0 <= j < i ==> (#[trigger] fields[j]).0@ != key) ==> member(fields, key) == Some(
            fields[i].1,
        ),
        (forall|j: int| 0 <= j < fields.len() ==> (#[trigger] fields[j]).0@ != key) <==> member(
            fields,
            key,
        ) is None,
    decreases fields.len(),
{
    if fields.len() > 0 && fields[0].0@ != key {
        let rest = fields.skip(1);
        lemma_member(rest, key, i - 1);
        assert(forall|j: int| 0 <= j < rest.len() ==> #[trigger] rest[j] == fields[j + 1]);
        assert(forall|j: int| 1 <= j < fields.len() ==> #[trigger] fields[j] == rest[j - 1]);
    }
}

/// An element of an array is found under its position, written as a plain decimal
/// number, and nothing is found past the end or under any other text.
pub proof fn law_an_element_is_found_by_its_position(
    items: Vec<Json>,
    position: nat,
    token: Seq<char>,
    i: int,
)
    ensures
        position < items@.len() ==> Json::Array(items).child(decimal(position)) == Some(
            items@[position as int],
        ),
        position >= items@.len() ==> Json::Array(items).child(decimal(position)) is None,
        0 <= i < token.len() && !('0' <= token[i] <= '9') ==> Json::Array(items).child(
            token,
        ) is None,
        token.len() > 1 && token[0] == '0' ==> Json::Array(items).child(token) is None,
        Json::Array(items).child(Seq::empty()) is None,
{
    law_decimal_text_reads_back(position, usize::MAX as nat);
    law_decimal_text_has_no_leading_zero(position);
    law_only_digits_are_a_number(token, i, usize::MAX as nat);
    law_only_digits_are_a_number(decimal(position), 0, usize::MAX as nat);
    if decimal(position)[0] == '+' {
        lemma_decimal_has_no_sign(position);
    }
    assert(items@.len() <= usize::MAX) by {
        vstd::std_specs::vec::axiom_spec_len(&items);
    }
}

proof fn lemma_decimal_has_no_sign(n: nat)
    ensures
        decimal(n).len() > 0,
        decimal(n)[0] != '+',
    decreases n,
{
    if n >= 10 {
        lemma_decimal_has_no_sign(n / 10);
    }
}

/// Nothing is one step down from a value that is neither an object nor an array.
pub proof fn law_plain_values_have_no_children(value: Json, token: Seq<char>)
    requires
        !(value is Object),
        !(value is Array),
    ensures
        value.child(token) is None,
{
}

/// A path is walked step by step: no steps lead nowhere else, one step leads to
/// the child, and the steps of one path and then of another are those of both.
pub proof fn law_a_path_is_walked_step_by_step(value: Json, path: Seq<&str>, rest: Seq<&str>, step: &str)
    ensures
        value.at(Seq::empty()) == Some(value),
        value.at(seq![step]) == value.child(step@),
        value.at(path + rest) == match value.at(path) {
            Some(there) => there.at(rest),
            None => None,
        },
    decreases path.len(),
{
    assert(seq![step].skip(1) =~= Seq::<&str>::empty());
    reveal_with_fuel(Json::at, 2);
    if path.len() == 0 {
        assert(path + rest =~= rest);
    } else {
        assert((path + rest)[0] == path[0]);
        assert((path + rest).skip(1) =~= path.skip(1) + rest);
        if value.child(path[0]@) is Some {
            law_a_path_is_walked_step_by_step(value.child(path[0]@)->0, path.skip(1), rest, step);
        }
    }
}

/// Only a string value has a text, and it is that of the string.
pub proof fn law_only_strings_have_text(value: Json, text: String)
    ensures
        Json::Text(text).text() == Some(text@),
        !(value is Text) ==> value.text() is None,
{
}

} // verus!
