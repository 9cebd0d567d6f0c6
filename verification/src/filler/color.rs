//! The six colors of the board and their names on the wire.

use vstd::prelude::*;
use crate::json::{Json, JsonModel};
use crate::text::str_equal;

verus! {

/// How many colors there are.
pub const N_COLORS: u8 = 6;

#[derive(Copy, Clone, PartialEq, Eq, Structural, Hash, Debug)]
pub enum Color {
    Red,
    Yellow,
    Green,
    Blue,
    Purple,
    Black,
}

/// One color if it is wanted, none if it is not.
pub open spec fn pick(color: Color, wanted: bool) -> Seq<Color> {
    if wanted {
        seq![color]
    } else {
        Seq::empty()
    }
}

/// The colors that `wanted` holds of, lowest number first.
pub open spec fn select(wanted: spec_fn(Color) -> bool) -> Seq<Color> {
    pick(Color::Red, wanted(Color::Red)) + pick(Color::Yellow, wanted(Color::Yellow)) + pick(
        Color::Green,
        wanted(Color::Green),
    ) + pick(Color::Blue, wanted(Color::Blue)) + pick(Color::Purple, wanted(Color::Purple)) + pick(
        Color::Black,
        wanted(Color::Black),
    )
}

/// Whether `colors` lists, in the order of their numbers, exactly the wanted
/// colors whose number is below `bound`.
pub open spec fn lists_below(colors: Seq<Color>, wanted: spec_fn(Color) -> bool, bound: int) -> bool {
    &&& colors.len() < bound
    &&& forall|i: int|
        0 <= i < colors.len() ==> wanted(#[trigger] colors[i]) && colors[i].number() < bound
    &&& forall|i: int, j: int|
        0 <= i < j < colors.len() ==> (#[trigger] colors[i]).number() < (
        #[trigger] colors[j]).number()
    &&& forall|c: Color| wanted(c) && c.number() < bound ==> #[trigger] colors.contains(c)
}

proof fn lemma_lists_next(colors: Seq<Color>, wanted: spec_fn(Color) -> bool, next: Color)
    requires
        lists_below(colors, wanted, next.number()),
    ensures
        lists_below(colors + pick(next, wanted(next)), wanted, next.number() + 1),
{
    let longer = colors + pick(next, wanted(next));
    assert forall|c: Color| wanted(c) && c.number() < next.number() + 1 implies longer.contains(
        c,
    ) by {
        if c.number() < next.number() {
            assert(colors.contains(c));
            let i = colors.index_of(c);
            assert(longer[i] == c);
        } else {
            assert(c == next);
            assert(longer[colors.len() as int] == c);
        }
    }
}

/// `select` holds exactly the wanted colors, each once, in the order of their
/// numbers.
pub proof fn lemma_select(wanted: spec_fn(Color) -> bool)
    ensures
        forall|c: Color| select(wanted).contains(c) <==> wanted(c),
        select(wanted).no_duplicates(),
        forall|i: int, j: int|
            0 <= i < j < select(wanted).len() ==> select(wanted)[i].number() < select(
                wanted,
            )[j].number(),
        select(wanted).len() <= 6,
{
    let s0 = Seq::<Color>::empty();
    assert(lists_below(s0, wanted, 1));
    let s1 = s0 + pick(Color::Red, wanted(Color::Red));
    lemma_lists_next(s0, wanted, Color::Red);
    let s2 = s1 + pick(Color::Yellow, wanted(Color::Yellow));
    lemma_lists_next(s1, wanted, Color::Yellow);
    let s3 = s2 + pick(Color::Green, wanted(Color::Green));
    lemma_lists_next(s2, wanted, Color::Green);
    let s4 = s3 + pick(Color::Blue, wanted(Color::Blue));
    lemma_lists_next(s3, wanted, Color::Blue);
    let s5 = s4 + pick(Color::Purple, wanted(Color::Purple));
    lemma_lists_next(s4, wanted, Color::Purple);
    let s6 = s5 + pick(Color::Black, wanted(Color::Black));
    lemma_lists_next(s5, wanted, Color::Black);
    assert(s1 == pick(Color::Red, wanted(Color::Red)));
    assert(s6 == select(wanted));
    assert forall|c: Color| s6.contains(c) implies wanted(c) by {
        let i = s6.index_of(c);
        assert(wanted(s6[i]));
    }
}

/// Two tests that agree on every color select the same colors.
pub proof fn lemma_select_same(a: spec_fn(Color) -> bool, b: spec_fn(Color) -> bool)
    requires
        forall|c: Color| #[trigger] a(c) == b(c),
    ensures
        select(a) == select(b),
{
}

/// The colors whose flag is set, lowest number first. The flag of a color
/// stands at its number less one.
pub fn colors_where(flags: &[bool; 6]) -> (r: Vec<Color>)
    ensures
        r@ == select(|c: Color| flags@[c.number() - 1]),
{
    let ghost wanted = |c: Color| flags@[c.number() - 1];
    let mut out: Vec<Color> = Vec::new();
    if flags[0] {
        out.push(Color::Red);
    }
    assert(out@ == pick(Color::Red, wanted(Color::Red)));
    if flags[1] {
        out.push(Color::Yellow);
    }
    assert(out@ == pick(Color::Red, wanted(Color::Red)) + pick(
        Color::Yellow,
        wanted(Color::Yellow),
    ));
    if flags[2] {
        out.push(Color::Green);
    }
    assert(out@ == pick(Color::Red, wanted(Color::Red)) + pick(
        Color::Yellow,
        wanted(Color::Yellow),
    ) + pick(Color::Green, wanted(Color::Green)));
    if flags[3] {
        out.push(Color::Blue);
    }
    assert(out@ == pick(Color::Red, wanted(Color::Red)) + pick(
        Color::Yellow,
        wanted(Color::Yellow),
    ) + pick(Color::Green, wanted(Color::Green)) + pick(Color::Blue, wanted(Color::Blue)));
    if flags[4] {
        out.push(Color::Purple);
    }
    assert(out@ == pick(Color::Red, wanted(Color::Red)) + pick(
        Color::Yellow,
        wanted(Color::Yellow),
    ) + pick(Color::Green, wanted(Color::Green)) + pick(Color::Blue, wanted(Color::Blue)) + pick(
        Color::Purple,
        wanted(Color::Purple),
    ));
    if flags[5] {
        out.push(Color::Black);
    }
    assert(out@ == select(wanted));
    out
}

impl Color {
    /// The number of the color, from 1 to 6.
    pub open spec fn number(self) -> int {
        match self {
            Color::Red => 1,
            Color::Yellow => 2,
            Color::Green => 3,
            Color::Blue => 4,
            Color::Purple => 5,
            Color::Black => 6,
        }
    }

    /// The name of the color on the wire.
    pub open spec fn name(self) -> Seq<char> {
        match self {
            Color::Red => "red"@,
            Color::Yellow => "yellow"@,
            Color::Green => "green"@,
            Color::Blue => "blue"@,
            Color::Purple => "purple"@,
            Color::Black => "black"@,
        }
    }

    /// The color that a JSON value names, if it names one.
    pub open spec fn decode(json: JsonModel) -> Option<Color> {
        match json {
            JsonModel::String(text) => if text == "red"@ {
                Some(Color::Red)
            } else if text == "yellow"@ {
                Some(Color::Yellow)
            } else if text == "green"@ {
                Some(Color::Green)
            } else if text == "blue"@ {
                Some(Color::Blue)
            } else if text == "purple"@ {
                Some(Color::Purple)
            } else if text == "black"@ {
                Some(Color::Black)
            } else {
                None
            },
            _ => None,
        }
    }

    /// The color with the number `n`.
    pub fn from_u8(n: u8) -> (color: Color)
        requires
            1 <= n <= N_COLORS,
        ensures
            color.number() == n,
    {
        if n == 1 {
            Color::Red
        } else if n == 2 {
            Color::Yellow
        } else if n == 3 {
            Color::Green
        } else if n == 4 {
            Color::Blue
        } else if n == 5 {
            Color::Purple
        } else {
            Color::Black
        }
    }

    pub fn jsonify(self) -> (json: Json)
        ensures
            json@ == JsonModel::String(self.name()),
    {
        match self {
            Color::Red => Json::String("red".to_owned()),
            Color::Yellow => Json::String("yellow".to_owned()),
            Color::Green => Json::String("green".to_owned()),
            Color::Blue => Json::String("blue".to_owned()),
            Color::Purple => Json::String("purple".to_owned()),
            Color::Black => Json::String("black".to_owned()),
        }
    }

    pub fn from_json(json: &Json) -> (r: Option<Color>)
        ensures
            r == Color::decode(json@),
    {
        match json.get_string() {
            None => None,
            Some(text) => {
                if str_equal(text, "red") {
                    Some(Color::Red)
                } else if str_equal(text, "yellow") {
                    Some(Color::Yellow)
                } else if str_equal(text, "green") {
                    Some(Color::Green)
                } else if str_equal(text, "blue") {
                    Some(Color::Blue)
                } else if str_equal(text, "purple") {
                    Some(Color::Purple)
                } else if str_equal(text, "black") {
                    Some(Color::Black)
                } else {
                    None
                }
            },
        }
    }
}

/// Reading a color's name gives the color back.
pub proof fn lemma_color_round_trip(color: Color)
    ensures
        Color::decode(JsonModel::String(color.name())) == Some(color),
{
    reveal_strlit("red");
    reveal_strlit("yellow");
    reveal_strlit("green");
    reveal_strlit("blue");
    reveal_strlit("purple");
    reveal_strlit("black");
    assert("red"@.len() == 3);
    assert("yellow"@.len() == 6);
    assert("green"@.len() == 5);
    assert("blue"@.len() == 4);
    assert("purple"@.len() == 6);
    assert("black"@.len() == 5);
    assert("yellow"@[0] != "purple"@[0]);
    assert("green"@[0] != "black"@[0]);
}

} // verus!
