//! The list of historical terms: a fixed JSON array, read once from a table
//! with one term on each line, and sent to every client that asks for it.

use vstd::prelude::*;
use vstd::string::StrSliceExecFns;
use vstd::utf8::encode_utf8;
use crate::json::{lemma_array_view, lemma_object_view, Json, JsonModel, Number};
use crate::notation::{json_text, print_json};
use crate::text::{chars_of, piece_bounds, pieces};

verus! {

/// Whether `c` is white space, as Unicode lists it.
pub open spec fn is_space(c: char) -> bool {
    let n = c as u32;
    ||| 0x09 <= n <= 0x0d
    ||| n == 0x20
    ||| n == 0x85
    ||| n == 0xa0
    ||| n == 0x1680
    ||| 0x2000 <= n <= 0x200a
    ||| n == 0x2028
    ||| n == 0x2029
    ||| n == 0x202f
    ||| n == 0x205f
    ||| n == 0x3000
}

/// `line` without the white space at its end.
pub open spec fn trimmed(line: Seq<char>) -> Seq<char>
    decreases line.len(),
{
    if line.len() > 0 && is_space(line.last()) {
        trimmed(line.drop_last())
    } else {
        line
    }
}

/// The fields of `line`: what stands before, between and after its tabs.
pub open spec fn fields(line: Seq<char>) -> Seq<Seq<char>> {
    pieces(line, '\t')
}

/// The value of a decimal digit.
pub open spec fn digit(c: char) -> Option<nat> {
    if '0' <= c <= '9' {
        Some((c as u32 - '0' as u32) as nat)
    } else {
        None
    }
}

/// The number that a row of decimal digits writes; none where a character is
/// no digit.
pub open spec fn digits_value(text: Seq<char>) -> Option<nat>
    decreases text.len(),
{
    if text.len() == 0 {
        Some(0)
    } else {
        match (digits_value(text.drop_last()), digit(text.last())) {
            (Some(value), Some(d)) => Some(value * 10 + d),
            _ => None,
        }
    }
}

/// The year that a field writes: decimal digits, at least one, with or without
/// a plus sign before them, of a value that sixteen bits can hold.
pub open spec fn year_of(field: Seq<char>) -> Option<u16> {
    let digits = if field.len() > 0 && field[0] == '+' {
        field.drop_first()
    } else {
        field
    };
    if digits.len() == 0 {
        None
    } else {
        match digits_value(digits) {
            Some(value) => if value <= u16::MAX {
                Some(value as u16)
            } else {
                None
            },
            None => None,
        }
    }
}

/// The flag that a field writes: `true` or `false`, and nothing else.
pub open spec fn flag_of(field: Seq<char>) -> Option<bool> {
    if field == seq!['t', 'r', 'u', 'e'] {
        Some(true)
    } else if field == seq!['f', 'a', 'l', 's', 'e'] {
        Some(false)
    } else {
        None
    }
}

/// The whole number `n` as a JSON value.
pub open spec fn year_json(n: u16) -> JsonModel {
    JsonModel::Number(Number { positive: true, mantissa: n as u64, exponent: 0 })
}

/// The term that a line of the table stands for. The line holds seven fields
/// with tabs between them: the first and the last year, three flags that say
/// whether the term is social, political and economic, the term and its
/// definition. White space at the end of the line does not count, and
/// neither do fields after the seventh.
pub open spec fn entry_json(line: Seq<char>) -> Option<JsonModel> {
    let f = fields(trimmed(line));
    if f.len() < 7 {
        None
    } else {
        match (year_of(f[0]), year_of(f[1]), flag_of(f[2]), flag_of(f[3]), flag_of(f[4])) {
            (Some(year_start), Some(year_end), Some(social), Some(political), Some(economic)) => Some(
                JsonModel::Object(
                    seq![
                        ("yearStart"@, year_json(year_start)),
                        ("yearEnd"@, year_json(year_end)),
                        ("social"@, JsonModel::Boolean(social)),
                        ("political"@, JsonModel::Boolean(political)),
                        ("economic"@, JsonModel::Boolean(economic)),
                        ("term"@, JsonModel::String(f[5])),
                        ("definition"@, JsonModel::String(f[6])),
                    ],
                ),
            ),
            _ => None,
        }
    }
}

/// The terms that the lines of a table stand for; none where a line is
/// malformed.
pub open spec fn entries_json(lines: Seq<Seq<char>>) -> Option<Seq<JsonModel>> {
    if forall|i: int| 0 <= i < lines.len() ==> entry_json(#[trigger] lines[i]) is Some {
        Some(Seq::new(lines.len(), |i: int| entry_json(lines[i]).unwrap()))
    } else {
        None
    }
}

fn space(c: char) -> (r: bool)
    ensures
        r == is_space(c),
{
    let n = c as u32;
    (0x09 <= n && n <= 0x0d) || n == 0x20 || n == 0x85 || n == 0xa0 || n == 0x1680 || (0x2000 <= n
        && n <= 0x200a) || n == 0x2028 || n == 0x2029 || n == 0x202f || n == 0x205f || n == 0x3000
}

/// How many characters of `line` are left without the white space at its
/// end.
fn trimmed_len(line: &Vec<char>) -> (n: usize)
    ensures
        n <= line.len(),
        trimmed(line@) == line@.take(n as int),
{
    let mut n = line.len();
    assert(line@.take(n as int) == line@);
    while n > 0 && space(line[n - 1])
        invariant
            n <= line.len(),
            trimmed(line@) == trimmed(line@.take(n as int)),
        decreases n,
    {
        assert(line@.take(n as int).drop_last() == line@.take(n - 1));
        n -= 1;
    }
    n
}

/// The year that the characters of `line` from `from` to `to` write.
fn read_year(line: &Vec<char>, from: usize, to: usize) -> (r: Option<u16>)
    requires
        from <= to <= line.len(),
    ensures
        r == year_of(line@.subrange(from as int, to as int)),
{
    let ghost field = line@.subrange(from as int, to as int);
    let start = if from < to && line[from] == '+' {
        from + 1
    } else {
        from
    };
    let ghost digits = line@.subrange(start as int, to as int);
    assert(digits == if field.len() > 0 && field[0] == '+' {
        field.drop_first()
    } else {
        field
    });
    if start == to {
        return None;
    }
    let mut value: u32 = 0;
    let mut i = start;
    let ghost mut exact: nat = 0;
    assert(digits.take(0) == Seq::<char>::empty());
    while i < to
        invariant
            start <= i <= to <= line.len(),
            from <= to,
            field == line@.subrange(from as int, to as int),
            digits.len() > 0,
            digits == if field.len() > 0 && field[0] == '+' {
                field.drop_first()
            } else {
                field
            },
            digits == line@.subrange(start as int, to as int),
            digits_value(digits.take(i - start)) == Some(exact),
            exact <= u16::MAX ==> value == exact,
            exact > u16::MAX ==> value > u16::MAX,
            value <= 10 * u16::MAX + 9,
        decreases to - i,
    {
        let c = line[i];
        assert(digits.take(i - start + 1).drop_last() == digits.take(i - start));
        assert(digits.take(i - start + 1).last() == c);
        if c < '0' || c > '9' {
            proof {
                assert(digit(c) is None);
                assert(digits_value(digits.take(i - start + 1)) is None);
                lemma_digits_stay_wrong(digits, i - start + 1);
            }
            return None;
        }
        let d = c as u32 - '0' as u32;
        assert(digit(c) == Some(d as nat));
        assert(digits_value(digits.take(i - start + 1)) == Some(exact * 10 + d as nat));
        if value <= u16::MAX as u32 {
            value = value * 10 + d;
        }
        proof {
            exact = exact * 10 + d as nat;
        }
        i += 1;
    }
    assert(digits.take(to - start) == digits);
    if value <= u16::MAX as u32 {
        Some(value as u16)
    } else {
        None
    }
}

/// A row of characters whose start writes no number writes none.
proof fn lemma_digits_stay_wrong(text: Seq<char>, n: int)
    requires
        0 <= n <= text.len(),
        digits_value(text.take(n)) is None,
    ensures
        digits_value(text) is None,
    decreases text.len() - n,
{
    if n < text.len() {
        assert(text.take(n + 1).drop_last() == text.take(n));
        lemma_digits_stay_wrong(text, n + 1);
    } else {
        assert(text.take(n) == text);
    }
}

/// The flag that the characters of `line` from `from` to `to` write.
fn read_flag(line: &Vec<char>, from: usize, to: usize) -> (r: Option<bool>)
    requires
        from <= to <= line.len(),
    ensures
        r == flag_of(line@.subrange(from as int, to as int)),
{
    let ghost field = line@.subrange(from as int, to as int);
    assert(forall|k: int| 0 <= k < field.len() ==> field[k] == line@[from + k]);
    if to - from == 4 && line[from] == 't' && line[from + 1] == 'r' && line[from + 2] == 'u'
        && line[from + 3] == 'e' {
        assert(field == seq!['t', 'r', 'u', 'e']);
        Some(true)
    } else if to - from == 5 && line[from] == 'f' && line[from + 1] == 'a' && line[from + 2] == 'l'
        && line[from + 3] == 's' && line[from + 4] == 'e' {
        assert(field == seq!['f', 'a', 'l', 's', 'e']);
        Some(false)
    } else {
        proof {
            let yes = seq!['t', 'r', 'u', 'e'];
            let no = seq!['f', 'a', 'l', 's', 'e'];
            assert(yes.len() == 4 && yes[0] == 't' && yes[1] == 'r' && yes[2] == 'u' && yes[3]
                == 'e');
            assert(no.len() == 5 && no[0] == 'f' && no[1] == 'a' && no[2] == 'l' && no[3] == 's'
                && no[4] == 'e');
            if field == yes {
                assert(field[0] == line@[from + 0] && field[1] == line@[from + 1] && field[2]
                    == line@[from + 2] && field[3] == line@[from + 3]);
            }
            if field == no {
                assert(field[0] == line@[from + 0] && field[1] == line@[from + 1] && field[2]
                    == line@[from + 2] && field[3] == line@[from + 3] && field[4] == line@[from
                    + 4]);
            }
        }
        None
    }
}

/// The term that a line of the table stands for, as JSON.
pub fn parse_entry(line: &str) -> (r: Option<Json>)
    ensures
        match entry_json(line@) {
            Some(json) => r matches Some(entry) && entry@ == json,
            None => r is None,
        },
{
    let chars = chars_of(line);
    let n = trimmed_len(&chars);
    let bounds = piece_bounds(&chars, n, '\t');
    if bounds.len() < 7 {
        return None;
    }
    let ghost f = fields(trimmed(line@));
    proof {
        assert forall|k: int| 0 <= k < 7 implies f[k] == chars@.subrange(
            bounds[k].0 as int,
            bounds[k].1 as int,
        ) && bounds[k].0 <= bounds[k].1 <= chars.len() by {
            let (from, to) = bounds[k];
            assert(chars@.take(n as int).subrange(from as int, to as int) == chars@.subrange(
                from as int,
                to as int,
            ));
        }
    }
    let year_start = match read_year(&chars, bounds[0].0, bounds[0].1) {
        Some(year) => year,
        None => {
            return None;
        },
    };
    let year_end = match read_year(&chars, bounds[1].0, bounds[1].1) {
        Some(year) => year,
        None => {
            return None;
        },
    };
    let social = match read_flag(&chars, bounds[2].0, bounds[2].1) {
        Some(flag) => flag,
        None => {
            return None;
        },
    };
    let political = match read_flag(&chars, bounds[3].0, bounds[3].1) {
        Some(flag) => flag,
        None => {
            return None;
        },
    };
    let economic = match read_flag(&chars, bounds[4].0, bounds[4].1) {
        Some(flag) => flag,
        None => {
            return None;
        },
    };
    let term = line.substring_char(bounds[5].0, bounds[5].1).to_owned();
    let definition = line.substring_char(bounds[6].0, bounds[6].1).to_owned();
    let mut members: Vec<(String, Json)> = Vec::new();
    members.push(("yearStart".to_owned(), Json::Number(Number::from_index(year_start as usize))));
    members.push(("yearEnd".to_owned(), Json::Number(Number::from_index(year_end as usize))));
    members.push(("social".to_owned(), Json::Boolean(social)));
    members.push(("political".to_owned(), Json::Boolean(political)));
    members.push(("economic".to_owned(), Json::Boolean(economic)));
    members.push(("term".to_owned(), Json::String(term)));
    members.push(("definition".to_owned(), Json::String(definition)));
    proof {
        lemma_object_view(members);
        assert((Json::Object(members))@->Object_0 =~= entry_json(line@).unwrap()->Object_0);
    }
    Some(Json::Object(members))
}

pub struct GodSetGlobalState {
    json: String,
}

impl GodSetGlobalState {
    /// The list as JSON text.
    pub closed spec fn text(&self) -> Seq<char> {
        self.json@
    }

    /// The list whose JSON text is `json`.
    pub fn from_text(json: String) -> (r: GodSetGlobalState)
        ensures
            r.text() == json@,
    {
        GodSetGlobalState { json }
    }

    /// The list that the lines of a table stand for: a JSON array with one
    /// object for each line. There is none where a line is malformed.
    pub fn from_lines(lines: &Vec<String>) -> (r: Option<GodSetGlobalState>)
        ensures
            match entries_json(Seq::new(lines.len() as nat, |i: int| lines[i]@)) {
                Some(entries) => r matches Some(list) && list.text() == json_text(
                    JsonModel::Array(entries),
                ),
                None => r is None,
            },
    {
        let ghost table = Seq::new(lines.len() as nat, |i: int| lines[i]@);
        let mut entries: Vec<Json> = Vec::new();
        let mut i: usize = 0;
        while i < lines.len()
            invariant
                i <= lines.len(),
                table == Seq::new(lines.len() as nat, |i: int| lines[i]@),
                entries.len() == i,
                forall|k: int|
                    0 <= k < i ==> entry_json(table[k]) == Some((#[trigger] entries[k])@),
            decreases lines.len() - i,
        {
            match parse_entry(lines[i].as_str()) {
                Some(entry) => {
                    entries.push(entry);
                },
                None => {
                    assert(entry_json(table[i as int]) is None);
                    return None;
                },
            }
            i += 1;
        }
        proof {
            lemma_array_view(entries);
            assert forall|k: int| 0 <= k < table.len() implies entry_json(
                #[trigger] table[k],
            ) is Some by {
                assert(entry_json(table[k]) == Some(entries[k]@));
            }
            assert((Json::Array(entries))@->Array_0 =~= entries_json(table).unwrap());
        }
        let json = print_json(&Json::Array(entries));
        Some(GodSetGlobalState { json })
    }

    /// The list as the bytes of its JSON text.
    pub fn raw_bytes(&self) -> (bytes: Vec<u8>)
        ensures
            bytes@ == encode_utf8(self.text()),
    {
        self.json.as_str().as_bytes_vec()
    }
}

} // verus!
