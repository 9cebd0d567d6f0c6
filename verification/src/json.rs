//! A JSON value as plain data, with the accessors the applications read it by.

use vstd::prelude::*;
use crate::text::str_equal;

verus! {

/// A JSON number in decimal form: `mantissa * 10^exponent`, negated unless
/// `positive`.
#[derive(Copy, Clone, PartialEq, Eq, Structural, Debug)]
pub struct Number {
    pub positive: bool,
    pub mantissa: u64,
    pub exponent: i16,
}

/// A JSON value. An object keeps its members in the order they were written;
/// a lookup takes the first member with the key.
#[derive(PartialEq, Eq, Debug)]
pub enum Json {
    Null,
    Boolean(bool),
    Number(Number),
    String(String),
    Array(Vec<Json>),
    Object(Vec<(String, Json)>),
}

/// The mathematical value of a [`Json`].
pub ghost enum JsonModel {
    Null,
    Boolean(bool),
    Number(Number),
    String(Seq<char>),
    Array(Seq<JsonModel>),
    Object(Seq<(Seq<char>, JsonModel)>),
}

pub open spec fn pow10(e: nat) -> nat
    decreases e,
{
    if e == 0 {
        1
    } else {
        10 * pow10((e - 1) as nat)
    }
}

/// The value of the first member of `members` whose key is `key`.
pub open spec fn find_member(members: Seq<(Seq<char>, JsonModel)>, key: Seq<char>) -> Option<
    JsonModel,
>
    decreases members.len(),
{
    if members.len() == 0 {
        None
    } else if members[0].0 == key {
        Some(members[0].1)
    } else {
        find_member(members.drop_first(), key)
    }
}

impl JsonModel {
    /// The member `key` of an object; `None` for a missing key and for a value
    /// that is no object.
    pub open spec fn member(self, key: Seq<char>) -> Option<JsonModel> {
        match self {
            JsonModel::Object(members) => find_member(members, key),
            _ => None,
        }
    }

    pub open spec fn as_array(self) -> Option<Seq<JsonModel>> {
        match self {
            JsonModel::Array(items) => Some(items),
            _ => None,
        }
    }

    pub open spec fn as_object(self) -> Option<Seq<(Seq<char>, JsonModel)>> {
        match self {
            JsonModel::Object(members) => Some(members),
            _ => None,
        }
    }

    pub open spec fn as_text(self) -> Option<Seq<char>> {
        match self {
            JsonModel::String(text) => Some(text),
            _ => None,
        }
    }

    pub open spec fn as_number(self) -> Option<Number> {
        match self {
            JsonModel::Number(n) => Some(n),
            _ => None,
        }
    }

    pub open spec fn as_bool(self) -> Option<bool> {
        match self {
            JsonModel::Boolean(b) => Some(b),
            _ => None,
        }
    }
}

impl Number {
    /// The number, if it is a whole number and not negative. Zero is one
    /// whatever its sign; `mantissa * 10^exponent` is one if it has no
    /// fraction.
    pub open spec fn whole(self) -> Option<nat> {
        if self.mantissa == 0 {
            Some(0)
        } else if !self.positive {
            None
        } else if self.exponent >= 0 {
            Some(self.mantissa as nat * pow10(self.exponent as nat))
        } else if self.mantissa as nat % pow10((-self.exponent) as nat) == 0 {
            Some(self.mantissa as nat / pow10((-self.exponent) as nat))
        } else {
            None
        }
    }

    /// The number as an index: itself, if it is a whole number that is not
    /// negative and that a `usize` can hold.
    pub open spec fn index(self) -> Option<usize> {
        match self.whole() {
            Some(n) => if n <= usize::MAX {
                Some(n as usize)
            } else {
                None
            },
            None => None,
        }
    }

    /// The whole number `n`.
    pub fn from_index(n: usize) -> (r: Number)
        ensures
            r == (Number { positive: true, mantissa: n as u64, exponent: 0 }),
            r.whole() == Some(n as nat),
            r.index() == Some(n),
    {
        proof {
            lemma_times_one(n as nat, pow10(0));
        }
        Number { positive: true, mantissa: n as u64, exponent: 0 }
    }

    /// The number as an index; none for a negative number, for one with a
    /// fraction and for one too large.
    pub fn to_index(&self) -> (r: Option<usize>)
        ensures
            r == self.index(),
    {
        if self.mantissa == 0 {
            return Some(0);
        }
        if !self.positive {
            return None;
        }
        let mut value: u64 = self.mantissa;
        if self.exponent >= 0 {
            let mut done: i16 = 0;
            proof {
                lemma_times_one(self.mantissa as nat, pow10(0));
            }
            while done < self.exponent
                invariant
                    self.positive,
                    self.mantissa != 0,
                    0 <= done <= self.exponent,
                    value > 0,
                    value as nat == self.mantissa as nat * pow10(done as nat),
                decreases self.exponent - done,
            {
                proof {
                    lemma_pow10_monotone((done + 1) as nat, self.exponent as nat);
                    assert(self.mantissa as nat * pow10((done + 1) as nat) <= self.mantissa as nat
                        * pow10(self.exponent as nat)) by (nonlinear_arith)
                        requires
                            pow10((done + 1) as nat) <= pow10(self.exponent as nat),
                    ;
                    assert(self.mantissa as nat * pow10((done + 1) as nat) == 10 * (
                    self.mantissa as nat * pow10(done as nat))) by (nonlinear_arith)
                        requires
                            pow10((done + 1) as nat) == 10 * pow10(done as nat),
                    ;
                }
                if value > usize::MAX as u64 / 10 {
                    assert(10 * value > usize::MAX);
                    assert(self.whole()->0 >= 10 * value);
                    return None;
                }
                value = value * 10;
                done = done + 1;
            }
            if value > usize::MAX as u64 {
                None
            } else {
                Some(value as usize)
            }
        } else {
            let mut done: i16 = 0;
            proof {
                lemma_times_one(self.mantissa as nat, pow10(0));
            }
            while done > self.exponent
                invariant
                    self.positive,
                    self.mantissa != 0,
                    self.exponent <= done <= 0,
                    self.exponent < 0,
                    value > 0,
                    self.mantissa as nat == value as nat * pow10((-done) as nat),
                decreases done - self.exponent,
            {
                if value % 10 != 0 {
                    proof {
                        lemma_fraction(
                            self.mantissa as nat,
                            value as nat,
                            (-done) as nat,
                            (-self.exponent) as nat,
                        );
                    }
                    return None;
                }
                proof {
                    let rest = (value / 10) as nat;
                    let p = pow10((-done) as nat);
                    assert(pow10((-(done - 1)) as nat) == 10 * p);
                    assert(value as nat * p == rest * (10 * p)) by (nonlinear_arith)
                        requires
                            value as nat == 10 * rest,
                    ;
                }
                value = value / 10;
                done = done - 1;
            }
            proof {
                let k = pow10((-self.exponent) as nat);
                lemma_pow10_positive((-self.exponent) as nat);
                vstd::arithmetic::div_mod::lemma_mod_multiples_basic(value as int, k as int);
                vstd::arithmetic::div_mod::lemma_div_multiples_vanish(value as int, k as int);
                assert(value as int * k as int == k as int * value as int) by (nonlinear_arith);
            }
            if value > usize::MAX as u64 {
                None
            } else {
                Some(value as usize)
            }
        }
    }
}

/// The power of a sum is the product of the powers.
pub proof fn lemma_pow10_add(a: nat, b: nat)
    ensures
        pow10(a + b) == pow10(a) * pow10(b),
    decreases b,
{
    if b == 0 {
        assert(pow10(a) * 1 == pow10(a));
    } else {
        lemma_pow10_add(a, (b - 1) as nat);
        assert(pow10(a) * (10 * pow10((b - 1) as nat)) == 10 * (pow10(a) * pow10((b - 1) as nat)))
            by (nonlinear_arith);
    }
}

/// A number whose digits end in one that is not zero, `j` places after the
/// point, has a fraction at every place from there on.
proof fn lemma_fraction(mantissa: nat, value: nat, j: nat, k: nat)
    requires
        mantissa == value * pow10(j),
        value % 10 != 0,
        j < k,
    ensures
        mantissa % pow10(k) != 0,
{
    let p = pow10(j);
    let q = pow10((k - j - 1) as nat);
    let big = pow10(k);
    lemma_pow10_positive(j);
    lemma_pow10_positive(k);
    lemma_pow10_add(j, (k - j) as nat);
    assert(pow10((k - j) as nat) == 10 * q);
    if mantissa % big == 0 {
        let t = mantissa / big;
        vstd::arithmetic::div_mod::lemma_fundamental_div_mod(mantissa as int, big as int);
        assert(mantissa == big * t);
        assert(value == 10 * (q * t)) by (nonlinear_arith)
            requires
                value * p == big * t,
                big == p * (10 * q),
                p > 0,
        ;
        assert(value % 10 == 0);
    }
}

pub proof fn lemma_pow10_positive(e: nat)
    ensures
        pow10(e) >= 1,
    decreases e,
{
    if e > 0 {
        lemma_pow10_positive((e - 1) as nat);
    }
}

pub proof fn lemma_pow10_monotone(a: nat, b: nat)
    requires
        a <= b,
    ensures
        pow10(a) <= pow10(b),
    decreases b,
{
    if a < b {
        lemma_pow10_monotone(a, (b - 1) as nat);
        lemma_pow10_positive((b - 1) as nat);
    }
}

proof fn lemma_times_one(x: nat, one: nat)
    requires
        one == 1,
    ensures
        x * one == x,
{
}

impl View for Json {
    type V = JsonModel;

    open spec fn view(&self) -> JsonModel {
        self.model()
    }
}

impl Json {
    /// The value that this JSON stands for; `@` gives the same.
    pub open spec fn model(&self) -> JsonModel
        decreases self,
    {
        match self {
            Json::Null => JsonModel::Null,
            Json::Boolean(b) => JsonModel::Boolean(*b),
            Json::Number(n) => JsonModel::Number(*n),
            Json::String(s) => JsonModel::String(s@),
            Json::Array(items) => JsonModel::Array(
                Seq::new(
                    items.len() as nat,
                    |i: int|
                        if 0 <= i < items.len() {
                            items[i].model()
                        } else {
                            JsonModel::Null
                        },
                ),
            ),
            Json::Object(members) => JsonModel::Object(
                Seq::new(
                    members.len() as nat,
                    |i: int|
                        if 0 <= i < members.len() {
                            (members[i].0@, members[i].1.model())
                        } else {
                            (Seq::empty(), JsonModel::Null)
                        },
                ),
            ),
        }
    }
}

/// What the view of an array holds: the views of its items, in order.
pub proof fn lemma_array_view(items: Vec<Json>)
    ensures
        (Json::Array(items))@ matches JsonModel::Array(s) && s.len() == items.len() && forall|
            i: int,
        | 0 <= i < items.len() ==> #[trigger] s[i] == items[i]@,
{
    reveal_with_fuel(Json::model, 2);
}

/// What the view of an object holds: the keys and the views of its members,
/// in order.
pub proof fn lemma_object_view(members: Vec<(String, Json)>)
    ensures
        (Json::Object(members))@ matches JsonModel::Object(s) && s.len() == members.len()
            && forall|i: int|
            0 <= i < members.len() ==> #[trigger] s[i] == (members[i].0@, members[i].1@),
{
    reveal_with_fuel(Json::model, 2);
}

/// The first member of `members` with the key `key`.
pub fn find_in<'a>(members: &'a Vec<(String, Json)>, key: &str) -> (r: Option<&'a Json>)
    ensures
        match find_member((Json::Object(*members))@->Object_0, key@) {
            Some(found) => r matches Some(j) && j@ == found,
            None => r is None,
        },
{
    let ghost all = (Json::Object(*members))@->Object_0;
    let mut i: usize = 0;
    assert(all.skip(0) == all);
    while i < members.len()
        invariant
            i <= members.len(),
            all == (Json::Object(*members))@->Object_0,
            all.len() == members.len(),
            find_member(all, key@) == find_member(all.skip(i as int), key@),
        decreases members.len() - i,
    {
        let ghost rest = all.skip(i as int);
        assert(rest[0] == all[i as int]);
        assert(rest.drop_first() == all.skip(i + 1));
        if str_equal(members[i].0.as_str(), key) {
            return Some(&members[i].1);
        }
        i += 1;
    }
    assert(all.skip(i as int).len() == 0);
    None
}

impl Json {
    pub fn get_null(&self) -> (r: Option<()>)
        ensures
            r is Some <==> self@ is Null,
    {
        match self {
            Json::Null => Some(()),
            _ => None,
        }
    }

    pub fn get_bool(&self) -> (r: Option<bool>)
        ensures
            r == self@.as_bool(),
    {
        match self {
            Json::Boolean(b) => Some(*b),
            _ => None,
        }
    }

    pub fn get_number(&self) -> (r: Option<Number>)
        ensures
            r == self@.as_number(),
    {
        match self {
            Json::Number(n) => Some(*n),
            _ => None,
        }
    }

    pub fn get_string(&self) -> (r: Option<&str>)
        ensures
            match self@.as_text() {
                Some(text) => r matches Some(s) && s@ == text,
                None => r is None,
            },
    {
        match self {
            Json::String(s) => Some(s.as_str()),
            _ => None,
        }
    }

    /// The items of an array. Item `i` of the vector stands for item `i` of the
    /// array.
    pub fn get_array(&self) -> (r: Option<&Vec<Json>>)
        ensures
            match self@.as_array() {
                Some(items) => r matches Some(v) && v.len() == items.len() && forall|i: int|
                    0 <= i < v.len() ==> (#[trigger] v[i])@ == items[i],
                None => r is None,
            },
    {
        match self {
            Json::Array(items) => Some(items),
            _ => None,
        }
    }

    /// The members of an object, in the order they were written.
    pub fn get_object(&self) -> (r: Option<&Vec<(String, Json)>>)
        ensures
            match self@.as_object() {
                Some(members) => r matches Some(v) && v.len() == members.len() && forall|i: int|
                    0 <= i < v.len() ==> (#[trigger] v[i]).0@ == members[i].0 && v[i].1@
                        == members[i].1,
                None => r is None,
            },
    {
        match self {
            Json::Object(members) => Some(members),
            _ => None,
        }
    }

    /// The member `key` of an object.
    pub fn get(&self, key: &str) -> (r: Option<&Json>)
        ensures
            match self@.member(key@) {
                Some(found) => r matches Some(j) && j@ == found,
                None => r is None,
            },
    {
        match self {
            Json::Object(members) => find_in(members, key),
            _ => None,
        }
    }
}

} // verus!
