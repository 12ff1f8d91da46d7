//! Variable decoder: parses the raw response body of the provider's
//! "list project variables" endpoint into structured variable records.
//!
//! The wire format is a JSON array of flat objects. Only the `name` member is
//! required; `variable_type`, `value`, `protected`, `masked` and
//! `environment_scope` are optional, and unknown members are skipped. The
//! grammar is stated as specification functions over the character sequence,
//! and the executable parser is proved to follow them exactly.

use vstd::prelude::*;

use crate::text::{
    char_from_u32, chars_eq, chars_of, has_str, hex_val, insert_sorted, is_digit, is_hex_digit,
    is_ws, sorted_strs, string_from_chars, to_strings,
};

verus! {

/// Model of one decoded variable record.
pub ghost struct VariableRecordV {
    pub name: Seq<char>,
    pub kind: Option<Seq<char>>,
    pub value: Option<Seq<char>>,
    pub protected: Option<bool>,
    pub masked: Option<bool>,
    pub scope: Option<Seq<char>>,
}

/// Model of a record under construction: each field is `Some` once its
/// member has appeared, holding `None` where the member was null.
pub ghost struct RecordAccV {
    pub name: Option<Option<Seq<char>>>,
    pub kind: Option<Option<Seq<char>>>,
    pub value: Option<Option<Seq<char>>>,
    pub protected: Option<Option<bool>>,
    pub masked: Option<Option<bool>>,
    pub scope: Option<Option<Seq<char>>>,
}

pub open spec fn empty_acc() -> RecordAccV {
    RecordAccV {
        name: None,
        kind: None,
        value: None,
        protected: None,
        masked: None,
        scope: None,
    }
}

/// A member seen with null counts as absent in the finished record.
pub open spec fn flatten_opt<T>(o: Option<Option<T>>) -> Option<T> {
    match o {
        Some(Some(x)) => Some(x),
        _ => None,
    }
}

/// First position at or after `i` that holds no whitespace.
pub open spec fn spec_skip_ws(s: Seq<char>, i: int) -> int
    decreases s.len() - i,
{
    if 0 <= i < s.len() && is_ws(s[i]) {
        spec_skip_ws(s, i + 1)
    } else {
        i
    }
}

/// First position at or after `i` that holds no decimal digit.
pub open spec fn spec_skip_digits(s: Seq<char>, i: int) -> int
    decreases s.len() - i,
{
    if 0 <= i < s.len() && is_digit(s[i]) {
        spec_skip_digits(s, i + 1)
    } else {
        i
    }
}

/// Value of the four hexadecimal digits at `i`.
pub open spec fn hex4(s: Seq<char>, i: int) -> int {
    hex_val(s[i]) * 0x1000 + hex_val(s[i + 1]) * 0x100 + hex_val(s[i + 2]) * 0x10 + hex_val(
        s[i + 3],
    )
}

/// The four characters at `i` are hexadecimal digits.
pub open spec fn hex4_ok(s: Seq<char>, i: int) -> bool {
    is_hex_digit(s[i]) && is_hex_digit(s[i + 1]) && is_hex_digit(s[i + 2]) && is_hex_digit(
        s[i + 3],
    )
}

/// Body of a quoted string, starting after the opening quote at `i`, with
/// `acc` the characters decoded so far. Yields the decoded characters and
/// the position after the closing quote. Escapes are decoded; a lone
/// surrogate escape, an unescaped control character or an unterminated
/// string fails.
pub open spec fn spec_string_body(s: Seq<char>, i: int, acc: Seq<char>) -> Option<(Seq<char>, int)>
    decreases s.len() - i,
{
    if i < 0 || i >= s.len() {
        None
    } else {
        let c = s[i];
        if c == '"' {
            Some((acc, i + 1))
        } else if c == '\\' {
            if i + 2 > s.len() {
                None
            } else {
                let e = s[i + 1];
                if e == '"' {
                    spec_string_body(s, i + 2, acc.push('"'))
                } else if e == '\\' {
                    spec_string_body(s, i + 2, acc.push('\\'))
                } else if e == '/' {
                    spec_string_body(s, i + 2, acc.push('/'))
                } else if e == 'b' {
                    spec_string_body(s, i + 2, acc.push('\u{8}'))
                } else if e == 'f' {
                    spec_string_body(s, i + 2, acc.push('\u{c}'))
                } else if e == 'n' {
                    spec_string_body(s, i + 2, acc.push('\n'))
                } else if e == 'r' {
                    spec_string_body(s, i + 2, acc.push('\r'))
                } else if e == 't' {
                    spec_string_body(s, i + 2, acc.push('\t'))
                } else if e == 'u' {
                    if i + 6 > s.len() || !hex4_ok(s, i + 2) {
                        None
                    } else {
                        let cu = hex4(s, i + 2);
                        if cu < 0xD800 || cu >= 0xE000 {
                            spec_string_body(s, i + 6, acc.push((cu as u32) as char))
                        } else if cu < 0xDC00 {
                            if i + 12 > s.len() || s[i + 6] != '\\' || s[i + 7] != 'u'
                                || !hex4_ok(s, i + 8) {
                                None
                            } else {
                                let lo = hex4(s, i + 8);
                                if 0xDC00 <= lo < 0xE000 {
                                    let cp = 0x10000 + (cu - 0xD800) * 0x400 + (lo - 0xDC00);
                                    spec_string_body(s, i + 12, acc.push((cp as u32) as char))
                                } else {
                                    None
                                }
                            }
                        } else {
                            None
                        }
                    }
                } else {
                    None
                }
            }
        } else if (c as u32) < 0x20 {
            None
        } else {
            spec_string_body(s, i + 1, acc.push(c))
        }
    }
}

/// A quoted string starting at `i`: the decoded characters and the position
/// after the closing quote.
pub open spec fn spec_string(s: Seq<char>, i: int) -> Option<(Seq<char>, int)> {
    if 0 <= i < s.len() && s[i] == '"' {
        spec_string_body(s, i + 1, Seq::<char>::empty())
    } else {
        None
    }
}

/// Fraction part of a number, if any, starting at `i`.
pub open spec fn spec_frac(s: Seq<char>, i: int) -> Option<int> {
    if 0 <= i < s.len() && s[i] == '.' {
        if i + 1 < s.len() && is_digit(s[i + 1]) {
            Some(spec_skip_digits(s, i + 1))
        } else {
            None
        }
    } else {
        Some(i)
    }
}

/// Exponent part of a number, if any, starting at `i`.
pub open spec fn spec_exp(s: Seq<char>, i: int) -> Option<int> {
    if 0 <= i < s.len() && (s[i] == 'e' || s[i] == 'E') {
        let j = if i + 1 < s.len() && (s[i + 1] == '+' || s[i + 1] == '-') {
            i + 2
        } else {
            i + 1
        };
        if j < s.len() && is_digit(s[j]) {
            Some(spec_skip_digits(s, j))
        } else {
            None
        }
    } else {
        Some(i)
    }
}

/// A number starting at `i`: optional minus, an integer part without a
/// superfluous leading zero, then optional fraction and exponent. Yields
/// the position after its last character.
pub open spec fn spec_number(s: Seq<char>, i: int) -> Option<int> {
    if i < 0 {
        None
    } else {
        let j0 = if i < s.len() && s[i] == '-' {
            i + 1
        } else {
            i
        };
        if j0 < s.len() && is_digit(s[j0]) {
            let j1 = if s[j0] == '0' {
                j0 + 1
            } else {
                spec_skip_digits(s, j0)
            };
            match spec_frac(s, j1) {
                None => None,
                Some(j2) => spec_exp(s, j2),
            }
        } else {
            None
        }
    }
}

/// The word `w` stands at `i`. Yields the position after it.
pub open spec fn spec_word(s: Seq<char>, i: int, w: Seq<char>) -> Option<int> {
    if 0 <= i && i + w.len() <= s.len() && s.subrange(i, i + w.len() as int) == w {
        Some(i + w.len() as int)
    } else {
        None
    }
}

/// Any value starting at `i`: skipped without being kept, as for a member
/// the record does not use. Yields the position after it.
pub open spec fn spec_skip_value(s: Seq<char>, i: int, fuel: nat) -> Option<int>
    decreases fuel,
{
    if fuel == 0 || i < 0 || i >= s.len() {
        None
    } else {
        let c = s[i];
        if c == '"' {
            match spec_string(s, i) {
                None => None,
                Some((t, j)) => Some(j),
            }
        } else if c == '{' {
            let j = spec_skip_ws(s, i + 1);
            if j < s.len() && s[j] == '}' {
                Some(j + 1)
            } else {
                spec_skip_members(s, j, (fuel - 1) as nat)
            }
        } else if c == '[' {
            let j = spec_skip_ws(s, i + 1);
            if j < s.len() && s[j] == ']' {
                Some(j + 1)
            } else {
                spec_skip_items(s, j, (fuel - 1) as nat)
            }
        } else if c == 't' {
            spec_word(s, i, "true"@)
        } else if c == 'f' {
            spec_word(s, i, "false"@)
        } else if c == 'n' {
            spec_word(s, i, "null"@)
        } else if c == '-' || is_digit(c) {
            spec_number(s, i)
        } else {
            None
        }
    }
}

/// Members of an object being skipped, starting at the opening quote of a
/// key. Yields the position after the closing brace.
pub open spec fn spec_skip_members(s: Seq<char>, i: int, fuel: nat) -> Option<int>
    decreases fuel,
{
    if fuel == 0 {
        None
    } else {
        match spec_string(s, i) {
            None => None,
            Some((key, j)) => {
                let j2 = spec_skip_ws(s, j);
                if j2 < s.len() && s[j2] == ':' {
                    let j3 = spec_skip_ws(s, j2 + 1);
                    match spec_skip_value(s, j3, (fuel - 1) as nat) {
                        None => None,
                        Some(k) => {
                            let k2 = spec_skip_ws(s, k);
                            if k2 < s.len() && s[k2] == '}' {
                                Some(k2 + 1)
                            } else if k2 < s.len() && s[k2] == ',' {
                                spec_skip_members(s, spec_skip_ws(s, k2 + 1), (fuel - 1) as nat)
                            } else {
                                None
                            }
                        },
                    }
                } else {
                    None
                }
            },
        }
    }
}

/// Items of an array being skipped, starting at the first character of an
/// item. Yields the position after the closing bracket.
pub open spec fn spec_skip_items(s: Seq<char>, i: int, fuel: nat) -> Option<int>
    decreases fuel,
{
    if fuel == 0 {
        None
    } else {
        match spec_skip_value(s, i, (fuel - 1) as nat) {
            None => None,
            Some(k) => {
                let k2 = spec_skip_ws(s, k);
                if k2 < s.len() && s[k2] == ']' {
                    Some(k2 + 1)
                } else if k2 < s.len() && s[k2] == ',' {
                    spec_skip_items(s, spec_skip_ws(s, k2 + 1), (fuel - 1) as nat)
                } else {
                    None
                }
            },
        }
    }
}

/// One member value at `i` under the given key, folded into the record
/// being built. A known member of the wrong shape fails, as does a known
/// member that appears twice; an unknown member is skipped.
pub open spec fn spec_member_value(
    s: Seq<char>,
    i: int,
    acc: RecordAccV,
    key: Seq<char>,
    fuel: nat,
) -> Option<(RecordAccV, int)> {
    if key == "name"@ {
        match spec_string_field(s, i) {
            None => None,
            Some((fv, j)) => if acc.name is Some {
                None
            } else {
                Some((RecordAccV { name: Some(fv), ..acc }, j))
            },
        }
    } else if key == "variable_type"@ {
        match spec_string_field(s, i) {
            None => None,
            Some((fv, j)) => if acc.kind is Some {
                None
            } else {
                Some((RecordAccV { kind: Some(fv), ..acc }, j))
            },
        }
    } else if key == "value"@ {
        match spec_string_field(s, i) {
            None => None,
            Some((fv, j)) => if acc.value is Some {
                None
            } else {
                Some((RecordAccV { value: Some(fv), ..acc }, j))
            },
        }
    } else if key == "environment_scope"@ {
        match spec_string_field(s, i) {
            None => None,
            Some((fv, j)) => if acc.scope is Some {
                None
            } else {
                Some((RecordAccV { scope: Some(fv), ..acc }, j))
            },
        }
    } else if key == "protected"@ {
        match spec_bool_field(s, i) {
            None => None,
            Some((fv, j)) => if acc.protected is Some {
                None
            } else {
                Some((RecordAccV { protected: Some(fv), ..acc }, j))
            },
        }
    } else if key == "masked"@ {
        match spec_bool_field(s, i) {
            None => None,
            Some((fv, j)) => if acc.masked is Some {
                None
            } else {
                Some((RecordAccV { masked: Some(fv), ..acc }, j))
            },
        }
    } else {
        match spec_skip_value(s, i, fuel) {
            None => None,
            Some(j) => Some((acc, j)),
        }
    }
}

/// A member value that must be a string or null.
pub open spec fn spec_string_field(s: Seq<char>, i: int) -> Option<(Option<Seq<char>>, int)> {
    if 0 <= i < s.len() && s[i] == '"' {
        match spec_string(s, i) {
            None => None,
            Some((t, j)) => Some((Some(t), j)),
        }
    } else {
        match spec_word(s, i, "null"@) {
            None => None,
            Some(j) => Some((None, j)),
        }
    }
}

/// A member value that must be a boolean or null.
pub open spec fn spec_bool_field(s: Seq<char>, i: int) -> Option<(Option<bool>, int)> {
    match spec_word(s, i, "true"@) {
        Some(j) => Some((Some(true), j)),
        None => match spec_word(s, i, "false"@) {
            Some(j) => Some((Some(false), j)),
            None => match spec_word(s, i, "null"@) {
                Some(j) => Some((None, j)),
                None => None,
            },
        },
    }
}

/// Members of one record object, starting at the opening quote of a key.
/// Yields the finished accumulator and the position after the closing
/// brace.
pub open spec fn spec_members(s: Seq<char>, i: int, acc: RecordAccV, fuel: nat) -> Option<
    (RecordAccV, int),
>
    decreases fuel,
{
    if fuel == 0 {
        None
    } else {
        match spec_string(s, i) {
            None => None,
            Some((key, j)) => {
                let j2 = spec_skip_ws(s, j);
                if j2 < s.len() && s[j2] == ':' {
                    let j3 = spec_skip_ws(s, j2 + 1);
                    match spec_member_value(s, j3, acc, key, (fuel - 1) as nat) {
                        None => None,
                        Some((acc2, k)) => {
                            let k2 = spec_skip_ws(s, k);
                            if k2 < s.len() && s[k2] == '}' {
                                Some((acc2, k2 + 1))
                            } else if k2 < s.len() && s[k2] == ',' {
                                spec_members(s, spec_skip_ws(s, k2 + 1), acc2, (fuel - 1) as nat)
                            } else {
                                None
                            }
                        },
                    }
                } else {
                    None
                }
            },
        }
    }
}

/// A finished accumulator makes a record when its name member appeared, was
/// a string and is non-empty.
pub open spec fn spec_finish(acc: RecordAccV) -> Option<VariableRecordV> {
    match acc.name {
        Some(Some(n)) => if n.len() > 0 {
            Some(
                VariableRecordV {
                    name: n,
                    kind: flatten_opt(acc.kind),
                    value: flatten_opt(acc.value),
                    protected: flatten_opt(acc.protected),
                    masked: flatten_opt(acc.masked),
                    scope: flatten_opt(acc.scope),
                },
            )
        } else {
            None
        },
        _ => None,
    }
}

/// Records of the top-level array, starting at the opening brace of a
/// record. Yields all records decoded so far and the position after the
/// closing bracket of the array.
pub open spec fn spec_records(
    s: Seq<char>,
    i: int,
    out: Seq<VariableRecordV>,
    fuel: nat,
) -> Option<(Seq<VariableRecordV>, int)>
    decreases fuel,
{
    if fuel == 0 {
        None
    } else if 0 <= i < s.len() && s[i] == '{' {
        let j = spec_skip_ws(s, i + 1);
        let finished = if j < s.len() && s[j] == '}' {
            Some((empty_acc(), j + 1))
        } else {
            spec_members(s, j, empty_acc(), (fuel - 1) as nat)
        };
        match finished {
            None => None,
            Some((acc, k)) => match spec_finish(acc) {
                None => None,
                Some(rec) => {
                    let k2 = spec_skip_ws(s, k);
                    if k2 < s.len() && s[k2] == ']' {
                        Some((out.push(rec), k2 + 1))
                    } else if k2 < s.len() && s[k2] == ',' {
                        spec_records(s, spec_skip_ws(s, k2 + 1), out.push(rec), (fuel - 1) as nat)
                    } else {
                        None
                    }
                },
            },
        }
    } else {
        None
    }
}

/// Recursion allowance that always suffices for a text of this length:
/// every nesting level and every element consumes at least one character.
pub open spec fn decode_fuel(s: Seq<char>) -> nat {
    (2 * s.len() + 16) as nat
}

/// The decoded record sequence of a response body: a JSON array of record
/// objects with nothing but whitespace around it, or nothing when the body
/// is not of that shape.
pub open spec fn spec_decode(s: Seq<char>) -> Option<Seq<VariableRecordV>> {
    let i = spec_skip_ws(s, 0);
    if i < s.len() && s[i] == '[' {
        let j = spec_skip_ws(s, i + 1);
        if j < s.len() && s[j] == ']' {
            if spec_skip_ws(s, j + 1) == s.len() {
                Some(Seq::<VariableRecordV>::empty())
            } else {
                None
            }
        } else {
            match spec_records(s, j, Seq::<VariableRecordV>::empty(), decode_fuel(s)) {
                None => None,
                Some((rs, k)) => if spec_skip_ws(s, k) == s.len() {
                    Some(rs)
                } else {
                    None
                },
            }
        }
    } else {
        None
    }
}

/// One decoded remote variable. Only `name` takes part in reconciliation;
/// the other members of the wire format are retained but otherwise inert.
pub struct VariableRecord {
    pub name: String,
    pub kind: Option<String>,
    pub value: Option<String>,
    pub protected: Option<bool>,
    pub masked: Option<bool>,
    pub scope: Option<String>,
}

pub open spec fn opt_str_view(o: Option<String>) -> Option<Seq<char>> {
    match o {
        Some(s) => Some(s@),
        None => None,
    }
}

impl View for VariableRecord {
    type V = VariableRecordV;

    open spec fn view(&self) -> VariableRecordV {
        VariableRecordV {
            name: self.name@,
            kind: opt_str_view(self.kind),
            value: opt_str_view(self.value),
            protected: self.protected,
            masked: self.masked,
            scope: opt_str_view(self.scope),
        }
    }
}

/// The views of a sequence of records.
pub open spec fn recs_view(rs: Seq<VariableRecord>) -> Seq<VariableRecordV> {
    rs.map_values(|r: VariableRecord| r@)
}

/// The response body did not decode; `offset` is the character position at
/// which decoding stopped.
#[derive(Clone, Copy, Debug, PartialEq, Eq, Structural)]
pub struct DecodeError {
    pub offset: usize,
}

/// A record under construction.
struct RecordAcc {
    name: Option<Option<Vec<char>>>,
    kind: Option<Option<Vec<char>>>,
    value: Option<Option<Vec<char>>>,
    protected: Option<Option<bool>>,
    masked: Option<Option<bool>>,
    scope: Option<Option<Vec<char>>>,
}

pub open spec fn opt2_view(o: Option<Option<Vec<char>>>) -> Option<Option<Seq<char>>> {
    match o {
        Some(Some(v)) => Some(Some(v@)),
        Some(None) => Some(None),
        None => None,
    }
}

impl View for RecordAcc {
    type V = RecordAccV;

    closed spec fn view(&self) -> RecordAccV {
        RecordAccV {
            name: opt2_view(self.name),
            kind: opt2_view(self.kind),
            value: opt2_view(self.value),
            protected: self.protected,
            masked: self.masked,
            scope: opt2_view(self.scope),
        }
    }
}

fn ws_char(c: char) -> (r: bool)
    ensures
        r == is_ws(c),
{
    c == ' ' || c == '\t' || c == '\n' || c == '\r'
}

fn digit_char(c: char) -> (r: bool)
    ensures
        r == is_digit(c),
{
    ('0' as u32) <= (c as u32) && (c as u32) <= ('9' as u32)
}

fn hex_char(c: char) -> (r: bool)
    ensures
        r == is_hex_digit(c),
{
    let u = c as u32;
    (('0' as u32) <= u && u <= ('9' as u32)) || (('a' as u32) <= u && u <= ('f' as u32)) || (('A'
        as u32) <= u && u <= ('F' as u32))
}

fn hexv(c: char) -> (r: u32)
    requires
        is_hex_digit(c),
    ensures
        r as int == hex_val(c),
        r <= 15,
{
    let u = c as u32;
    if ('0' as u32) <= u && u <= ('9' as u32) {
        u - ('0' as u32)
    } else if ('a' as u32) <= u && u <= ('f' as u32) {
        u - ('a' as u32) + 10
    } else {
        u - ('A' as u32) + 10
    }
}

fn x_skip_ws(v: &Vec<char>, i: usize) -> (r: usize)
    requires
        i <= v@.len(),
    ensures
        i <= r <= v@.len(),
        r as int == spec_skip_ws(v@, i as int),
{
    let mut j: usize = i;
    while j < v.len() && ws_char(v[j])
        invariant
            i <= j <= v@.len(),
            spec_skip_ws(v@, i as int) == spec_skip_ws(v@, j as int),
        decreases v@.len() - j,
    {
        j += 1;
    }
    j
}

fn x_skip_digits(v: &Vec<char>, i: usize) -> (r: usize)
    requires
        i <= v@.len(),
    ensures
        i <= r <= v@.len(),
        r as int == spec_skip_digits(v@, i as int),
{
    let mut j: usize = i;
    while j < v.len() && digit_char(v[j])
        invariant
            i <= j <= v@.len(),
            spec_skip_digits(v@, i as int) == spec_skip_digits(v@, j as int),
        decreases v@.len() - j,
    {
        j += 1;
    }
    j
}

fn x_word(v: &Vec<char>, i: usize, w: &Vec<char>) -> (r: Option<usize>)
    requires
        i <= v@.len(),
        v@.len() + 16 <= usize::MAX,
    ensures
        (match r {
            Some(j) => spec_word(v@, i as int, w@) == Some(j as int) && i <= j <= v@.len(),
            None => spec_word(v@, i as int, w@) is None,
        }),
{
    if v.len() - i < w.len() {
        return None;
    }
    let mut k: usize = 0;
    while k < w.len()
        invariant
            0 <= k <= w@.len(),
            i + w@.len() <= v@.len(),
            v@.len() + 16 <= usize::MAX,
            forall|m: int| 0 <= m < k ==> v@[i + m] == w@[m],
        decreases w@.len() - k,
    {
        let ix: usize = i + k;
        if v[ix] != w[k] {
            proof {
                assert(v@.subrange(i as int, i + w@.len())[k as int] == v@[i + k]);
            }
            return None;
        }
        k += 1;
    }
    proof {
        assert(v@.subrange(i as int, i + w@.len()) =~= w@);
    }
    Some(i + w.len())
}

fn x_string_body(v: &Vec<char>, i: usize, acc: Vec<char>) -> (r: Result<(Vec<char>, usize), usize>)
    requires
        i <= v@.len(),
        v@.len() + 16 <= usize::MAX,
    ensures
        (match r {
            Ok((t, j)) => spec_string_body(v@, i as int, acc@) == Some((t@, j as int)) && i < j
                <= v@.len(),
            Err(e) => spec_string_body(v@, i as int, acc@) is None,
        }),
    decreases v@.len() - i,
{
    if i >= v.len() {
        return Err(i);
    }
    let c = v[i];
    if c == '"' {
        return Ok((acc, i + 1));
    }
    if c == '\\' {
        if i + 2 > v.len() {
            return Err(i);
        }
        let e = v[i + 1];
        let simple: Option<char> = match e {
            '"' => Some('"'),
            '\\' => Some('\\'),
            '/' => Some('/'),
            'b' => Some('\u{8}'),
            'f' => Some('\u{c}'),
            'n' => Some('\n'),
            'r' => Some('\r'),
            't' => Some('\t'),
            _ => None,
        };
        if let Some(ec) = simple {
            let mut acc2 = acc;
            acc2.push(ec);
            return x_string_body(v, i + 2, acc2);
        }
        if e != 'u' {
            return Err(i);
        }
        if i + 6 > v.len() {
            return Err(i);
        }
        if !(hex_char(v[i + 2]) && hex_char(v[i + 3]) && hex_char(v[i + 4]) && hex_char(
            v[i + 5],
        )) {
            return Err(i);
        }
        let cu: u32 = hexv(v[i + 2]) * 0x1000 + hexv(v[i + 3]) * 0x100 + hexv(v[i + 4]) * 0x10
            + hexv(v[i + 5]);
        proof {
            assert(cu as int == hex4(v@, i as int + 2));
        }
        if cu < 0xD800 || cu >= 0xE000 {
            if let Some(ch) = char_from_u32(cu) {
                let mut acc2 = acc;
                acc2.push(ch);
                return x_string_body(v, i + 6, acc2);
            }
            proof {
                assert(false);
            }
            return Err(i);
        }
        if cu >= 0xDC00 {
            return Err(i);
        }
        if i + 12 > v.len() {
            return Err(i);
        }
        if v[i + 6] != '\\' || v[i + 7] != 'u' {
            return Err(i);
        }
        if !(hex_char(v[i + 8]) && hex_char(v[i + 9]) && hex_char(v[i + 10]) && hex_char(
            v[i + 11],
        )) {
            return Err(i);
        }
        let lo: u32 = hexv(v[i + 8]) * 0x1000 + hexv(v[i + 9]) * 0x100 + hexv(v[i + 10]) * 0x10
            + hexv(v[i + 11]);
        proof {
            assert(lo as int == hex4(v@, i as int + 8));
        }
        if !(0xDC00 <= lo && lo < 0xE000) {
            return Err(i);
        }
        let cp: u32 = 0x10000 + (cu - 0xD800) * 0x400 + (lo - 0xDC00);
        if let Some(ch) = char_from_u32(cp) {
            let mut acc2 = acc;
            acc2.push(ch);
            return x_string_body(v, i + 12, acc2);
        }
        proof {
            assert(false);
        }
        return Err(i);
    }
    if (c as u32) < 0x20 {
        return Err(i);
    }
    let mut acc2 = acc;
    acc2.push(c);
    x_string_body(v, i + 1, acc2)
}

fn x_string(v: &Vec<char>, i: usize) -> (r: Result<(Vec<char>, usize), usize>)
    requires
        i <= v@.len(),
        v@.len() + 16 <= usize::MAX,
    ensures
        (match r {
            Ok((t, j)) => spec_string(v@, i as int) == Some((t@, j as int)) && i < j <= v@.len(),
            Err(e) => spec_string(v@, i as int) is None,
        }),
{
    if i < v.len() && v[i] == '"' {
        let acc: Vec<char> = Vec::new();
        x_string_body(v, i + 1, acc)
    } else {
        Err(i)
    }
}

fn x_frac(v: &Vec<char>, i: usize) -> (r: Result<usize, usize>)
    requires
        i <= v@.len(),
        v@.len() + 16 <= usize::MAX,
    ensures
        (match r {
            Ok(j) => spec_frac(v@, i as int) == Some(j as int) && i <= j <= v@.len(),
            Err(e) => spec_frac(v@, i as int) is None,
        }),
{
    if i < v.len() && v[i] == '.' {
        if i + 1 < v.len() && digit_char(v[i + 1]) {
            Ok(x_skip_digits(v, i + 1))
        } else {
            Err(i)
        }
    } else {
        Ok(i)
    }
}

fn x_exp(v: &Vec<char>, i: usize) -> (r: Result<usize, usize>)
    requires
        i <= v@.len(),
        v@.len() + 16 <= usize::MAX,
    ensures
        (match r {
            Ok(j) => spec_exp(v@, i as int) == Some(j as int) && i <= j <= v@.len(),
            Err(e) => spec_exp(v@, i as int) is None,
        }),
{
    if i < v.len() && (v[i] == 'e' || v[i] == 'E') {
        let j: usize = if i + 1 < v.len() && (v[i + 1] == '+' || v[i + 1] == '-') {
            i + 2
        } else {
            i + 1
        };
        if j < v.len() && digit_char(v[j]) {
            Ok(x_skip_digits(v, j))
        } else {
            Err(i)
        }
    } else {
        Ok(i)
    }
}

fn x_number(v: &Vec<char>, i: usize) -> (r: Result<usize, usize>)
    requires
        i <= v@.len(),
        v@.len() + 16 <= usize::MAX,
    ensures
        (match r {
            Ok(j) => spec_number(v@, i as int) == Some(j as int) && i <= j <= v@.len(),
            Err(e) => spec_number(v@, i as int) is None,
        }),
{
    let j0: usize = if i < v.len() && v[i] == '-' {
        i + 1
    } else {
        i
    };
    if j0 < v.len() && digit_char(v[j0]) {
        let j1: usize = if v[j0] == '0' {
            j0 + 1
        } else {
            x_skip_digits(v, j0)
        };
        match x_frac(v, j1) {
            Err(e) => Err(e),
            Ok(j2) => x_exp(v, j2),
        }
    } else {
        Err(i)
    }
}

fn x_skip_value(v: &Vec<char>, i: usize, fuel: usize) -> (r: Result<usize, usize>)
    requires
        i <= v@.len(),
        v@.len() + 16 <= usize::MAX,
    ensures
        (match r {
            Ok(j) => spec_skip_value(v@, i as int, fuel as nat) == Some(j as int) && i <= j
                <= v@.len(),
            Err(e) => spec_skip_value(v@, i as int, fuel as nat) is None,
        }),
    decreases fuel,
{
    if fuel == 0 || i >= v.len() {
        return Err(i);
    }
    let c = v[i];
    if c == '"' {
        match x_string(v, i) {
            Ok((t, j)) => Ok(j),
            Err(e) => Err(e),
        }
    } else if c == '{' {
        let j = x_skip_ws(v, i + 1);
        if j < v.len() && v[j] == '}' {
            Ok(j + 1)
        } else {
            x_skip_members(v, j, fuel - 1)
        }
    } else if c == '[' {
        let j = x_skip_ws(v, i + 1);
        if j < v.len() && v[j] == ']' {
            Ok(j + 1)
        } else {
            x_skip_items(v, j, fuel - 1)
        }
    } else if c == 't' {
        let w = chars_of("true");
        match x_word(v, i, &w) {
            Some(j) => Ok(j),
            None => Err(i),
        }
    } else if c == 'f' {
        let w = chars_of("false");
        match x_word(v, i, &w) {
            Some(j) => Ok(j),
            None => Err(i),
        }
    } else if c == 'n' {
        let w = chars_of("null");
        match x_word(v, i, &w) {
            Some(j) => Ok(j),
            None => Err(i),
        }
    } else if c == '-' || digit_char(c) {
        x_number(v, i)
    } else {
        Err(i)
    }
}

fn x_skip_members(v: &Vec<char>, i: usize, fuel: usize) -> (r: Result<usize, usize>)
    requires
        i <= v@.len(),
        v@.len() + 16 <= usize::MAX,
    ensures
        (match r {
            Ok(j) => spec_skip_members(v@, i as int, fuel as nat) == Some(j as int) && i <= j
                <= v@.len(),
            Err(e) => spec_skip_members(v@, i as int, fuel as nat) is None,
        }),
    decreases fuel,
{
    if fuel == 0 {
        return Err(i);
    }
    match x_string(v, i) {
        Err(e) => Err(e),
        Ok((key, j)) => {
            let j2 = x_skip_ws(v, j);
            if j2 < v.len() && v[j2] == ':' {
                let j3 = x_skip_ws(v, j2 + 1);
                match x_skip_value(v, j3, fuel - 1) {
                    Err(e) => Err(e),
                    Ok(k) => {
                        let k2 = x_skip_ws(v, k);
                        if k2 < v.len() && v[k2] == '}' {
                            Ok(k2 + 1)
                        } else if k2 < v.len() && v[k2] == ',' {
                            x_skip_members(v, x_skip_ws(v, k2 + 1), fuel - 1)
                        } else {
                            Err(k2)
                        }
                    },
                }
            } else {
                Err(j2)
            }
        },
    }
}

fn x_skip_items(v: &Vec<char>, i: usize, fuel: usize) -> (r: Result<usize, usize>)
    requires
        i <= v@.len(),
        v@.len() + 16 <= usize::MAX,
    ensures
        (match r {
            Ok(j) => spec_skip_items(v@, i as int, fuel as nat) == Some(j as int) && i <= j
                <= v@.len(),
            Err(e) => spec_skip_items(v@, i as int, fuel as nat) is None,
        }),
    decreases fuel,
{
    if fuel == 0 {
        return Err(i);
    }
    match x_skip_value(v, i, fuel - 1) {
        Err(e) => Err(e),
        Ok(k) => {
            let k2 = x_skip_ws(v, k);
            if k2 < v.len() && v[k2] == ']' {
                Ok(k2 + 1)
            } else if k2 < v.len() && v[k2] == ',' {
                x_skip_items(v, x_skip_ws(v, k2 + 1), fuel - 1)
            } else {
                Err(k2)
            }
        },
    }
}

fn x_string_field(v: &Vec<char>, i: usize) -> (r: Result<(Option<Vec<char>>, usize), usize>)
    requires
        i <= v@.len(),
        v@.len() + 16 <= usize::MAX,
    ensures
        (match r {
            Ok((fv, j)) => spec_string_field(v@, i as int) == Some((opt_chars_view(fv), j as int))
                && i <= j <= v@.len(),
            Err(e) => spec_string_field(v@, i as int) is None,
        }),
{
    if i < v.len() && v[i] == '"' {
        match x_string(v, i) {
            Ok((t, j)) => Ok((Some(t), j)),
            Err(e) => Err(e),
        }
    } else {
        let w = chars_of("null");
        match x_word(v, i, &w) {
            Some(j) => Ok((None, j)),
            None => Err(i),
        }
    }
}

fn x_bool_field(v: &Vec<char>, i: usize) -> (r: Result<(Option<bool>, usize), usize>)
    requires
        i <= v@.len(),
        v@.len() + 16 <= usize::MAX,
    ensures
        (match r {
            Ok((fv, j)) => spec_bool_field(v@, i as int) == Some((fv, j as int)) && i <= j
                <= v@.len(),
            Err(e) => spec_bool_field(v@, i as int) is None,
        }),
{
    let wt = chars_of("true");
    match x_word(v, i, &wt) {
        Some(j) => Ok((Some(true), j)),
        None => {
            let wf = chars_of("false");
            match x_word(v, i, &wf) {
                Some(j) => Ok((Some(false), j)),
                None => {
                    let wn = chars_of("null");
                    match x_word(v, i, &wn) {
                        Some(j) => Ok((None, j)),
                        None => Err(i),
                    }
                },
            }
        },
    }
}

fn x_member_value(v: &Vec<char>, i: usize, acc: RecordAcc, key: &Vec<char>, fuel: usize) -> (r:
    Result<(RecordAcc, usize), usize>)
    requires
        i <= v@.len(),
        v@.len() + 16 <= usize::MAX,
    ensures
        (match r {
            Ok((acc2, j)) => spec_member_value(v@, i as int, acc@, key@, fuel as nat) == Some(
                (acc2@, j as int),
            ) && i <= j <= v@.len(),
            Err(e) => spec_member_value(v@, i as int, acc@, key@, fuel as nat) is None,
        }),
{
    let w_name = chars_of("name");
    if chars_eq(key, &w_name) {
        return match x_string_field(v, i) {
            Err(e) => Err(e),
            Ok((fv, j)) => if acc.name.is_some() {
                Err(j)
            } else {
                Ok((RecordAcc { name: Some(fv), ..acc }, j))
            },
        };
    }
    let w_kind = chars_of("variable_type");
    if chars_eq(key, &w_kind) {
        return match x_string_field(v, i) {
            Err(e) => Err(e),
            Ok((fv, j)) => if acc.kind.is_some() {
                Err(j)
            } else {
                Ok((RecordAcc { kind: Some(fv), ..acc }, j))
            },
        };
    }
    let w_value = chars_of("value");
    if chars_eq(key, &w_value) {
        return match x_string_field(v, i) {
            Err(e) => Err(e),
            Ok((fv, j)) => if acc.value.is_some() {
                Err(j)
            } else {
                Ok((RecordAcc { value: Some(fv), ..acc }, j))
            },
        };
    }
    let w_scope = chars_of("environment_scope");
    if chars_eq(key, &w_scope) {
        return match x_string_field(v, i) {
            Err(e) => Err(e),
            Ok((fv, j)) => if acc.scope.is_some() {
                Err(j)
            } else {
                Ok((RecordAcc { scope: Some(fv), ..acc }, j))
            },
        };
    }
    let w_protected = chars_of("protected");
    if chars_eq(key, &w_protected) {
        return match x_bool_field(v, i) {
            Err(e) => Err(e),
            Ok((fv, j)) => if acc.protected.is_some() {
                Err(j)
            } else {
                Ok((RecordAcc { protected: Some(fv), ..acc }, j))
            },
        };
    }
    let w_masked = chars_of("masked");
    if chars_eq(key, &w_masked) {
        return match x_bool_field(v, i) {
            Err(e) => Err(e),
            Ok((fv, j)) => if acc.masked.is_some() {
                Err(j)
            } else {
                Ok((RecordAcc { masked: Some(fv), ..acc }, j))
            },
        };
    }
    match x_skip_value(v, i, fuel) {
        Err(e) => Err(e),
        Ok(j) => Ok((acc, j)),
    }
}

fn x_members(v: &Vec<char>, i: usize, acc: RecordAcc, fuel: usize) -> (r: Result<
    (RecordAcc, usize),
    usize,
>)
    requires
        i <= v@.len(),
        v@.len() + 16 <= usize::MAX,
    ensures
        (match r {
            Ok((acc2, j)) => spec_members(v@, i as int, acc@, fuel as nat) == Some(
                (acc2@, j as int),
            ) && i <= j <= v@.len(),
            Err(e) => spec_members(v@, i as int, acc@, fuel as nat) is None,
        }),
    decreases fuel,
{
    if fuel == 0 {
        return Err(i);
    }
    match x_string(v, i) {
        Err(e) => Err(e),
        Ok((key, j)) => {
            let j2 = x_skip_ws(v, j);
            if j2 < v.len() && v[j2] == ':' {
                let j3 = x_skip_ws(v, j2 + 1);
                match x_member_value(v, j3, acc, &key, fuel - 1) {
                    Err(e) => Err(e),
                    Ok((acc2, k)) => {
                        let k2 = x_skip_ws(v, k);
                        if k2 < v.len() && v[k2] == '}' {
                            Ok((acc2, k2 + 1))
                        } else if k2 < v.len() && v[k2] == ',' {
                            x_members(v, x_skip_ws(v, k2 + 1), acc2, fuel - 1)
                        } else {
                            Err(k2)
                        }
                    },
                }
            } else {
                Err(j2)
            }
        },
    }
}

fn x_finish(acc: RecordAcc, at: usize) -> (r: Result<VariableRecord, usize>)
    ensures
        (match r {
            Ok(rec) => spec_finish(acc@) == Some(rec@),
            Err(e) => spec_finish(acc@) is None,
        }),
{
    match acc.name {
        Some(Some(n)) => {
            if n.len() > 0 {
                let name = string_from_chars(&n);
                let kind: Option<String> = match acc.kind {
                    Some(Some(cs)) => Some(string_from_chars(&cs)),
                    _ => None,
                };
                let value: Option<String> = match acc.value {
                    Some(Some(cs)) => Some(string_from_chars(&cs)),
                    _ => None,
                };
                let scope: Option<String> = match acc.scope {
                    Some(Some(cs)) => Some(string_from_chars(&cs)),
                    _ => None,
                };
                let protected: Option<bool> = match acc.protected {
                    Some(Some(b)) => Some(b),
                    _ => None,
                };
                let masked: Option<bool> = match acc.masked {
                    Some(Some(b)) => Some(b),
                    _ => None,
                };
                Ok(VariableRecord { name, kind, value, protected, masked, scope })
            } else {
                Err(at)
            }
        },
        _ => Err(at),
    }
}

fn x_records(v: &Vec<char>, i: usize, out: Vec<VariableRecord>, fuel: usize) -> (r: Result<
    (Vec<VariableRecord>, usize),
    usize,
>)
    requires
        i <= v@.len(),
        v@.len() + 16 <= usize::MAX,
    ensures
        (match r {
            Ok((rs, j)) => spec_records(v@, i as int, recs_view(out@), fuel as nat) == Some(
                (recs_view(rs@), j as int),
            ) && i <= j <= v@.len(),
            Err(e) => spec_records(v@, i as int, recs_view(out@), fuel as nat) is None,
        }),
    decreases fuel,
{
    if fuel == 0 {
        return Err(i);
    }
    if i < v.len() && v[i] == '{' {
        let j = x_skip_ws(v, i + 1);
        let finished: Result<(RecordAcc, usize), usize> = if j < v.len() && v[j] == '}' {
            Ok(
                (
                    RecordAcc {
                        name: None,
                        kind: None,
                        value: None,
                        protected: None,
                        masked: None,
                        scope: None,
                    },
                    j + 1,
                ),
            )
        } else {
            x_members(
                v,
                j,
                RecordAcc {
                    name: None,
                    kind: None,
                    value: None,
                    protected: None,
                    masked: None,
                    scope: None,
                },
                fuel - 1,
            )
        };
        match finished {
            Err(e) => Err(e),
            Ok((acc, k)) => match x_finish(acc, k) {
                Err(e) => Err(e),
                Ok(rec) => {
                    let k2 = x_skip_ws(v, k);
                    let ghost prev = out@;
                    let mut out2 = out;
                    out2.push(rec);
                    proof {
                        assert(recs_view(out2@) =~= recs_view(prev).push(rec@));
                    }
                    if k2 < v.len() && v[k2] == ']' {
                        Ok((out2, k2 + 1))
                    } else if k2 < v.len() && v[k2] == ',' {
                        x_records(v, x_skip_ws(v, k2 + 1), out2, fuel - 1)
                    } else {
                        Err(k2)
                    }
                },
            },
        }
    } else {
        Err(i)
    }
}

/// Decodes a response body into its variable records. Succeeds exactly on a
/// body that is a JSON array of record objects, each with a non-empty string
/// `name`, and yields the records in the order of the array; any other body
/// is a `DecodeError` carrying the position where decoding stopped.
pub fn decode_variables(body: &str) -> (r: Result<Vec<VariableRecord>, DecodeError>)
    requires
        2 * body@.len() + 16 <= usize::MAX,
    ensures
        (match r {
            Ok(recs) => spec_decode(body@) == Some(recs_view(recs@)),
            Err(e) => spec_decode(body@) is None,
        }),
{
    let v = chars_of(body);
    let i = x_skip_ws(&v, 0);
    if i < v.len() && v[i] == '[' {
        let j = x_skip_ws(&v, i + 1);
        if j < v.len() && v[j] == ']' {
            let k = x_skip_ws(&v, j + 1);
            if k == v.len() {
                let out: Vec<VariableRecord> = Vec::new();
                proof {
                    assert(recs_view(out@) =~= Seq::<VariableRecordV>::empty());
                }
                Ok(out)
            } else {
                Err(DecodeError { offset: k })
            }
        } else {
            let fuel: usize = 2 * v.len() + 16;
            let out: Vec<VariableRecord> = Vec::new();
            proof {
                assert(recs_view(out@) =~= Seq::<VariableRecordV>::empty());
            }
            match x_records(&v, j, out, fuel) {
                Err(e) => Err(DecodeError { offset: e }),
                Ok((rs, k)) => {
                    let k2 = x_skip_ws(&v, k);
                    if k2 == v.len() {
                        Ok(rs)
                    } else {
                        Err(DecodeError { offset: k2 })
                    }
                },
            }
        }
    } else {
        Err(DecodeError { offset: i })
    }
}

/// Some record of the sequence carries the name `t`.
pub open spec fn has_name(rs: Seq<VariableRecordV>, t: Seq<char>) -> bool {
    exists|k: int| 0 <= k < rs.len() && rs[k].name == t
}

/// The name set of the decoded records: every declared name, sorted
/// lexicographically and deduplicated.
pub fn variable_names(records: &Vec<VariableRecord>) -> (r: Vec<String>)
    ensures
        sorted_strs(r@),
        forall|t: Seq<char>| has_str(r@, t) <==> has_name(recs_view(records@), t),
{
    let mut out: Vec<Vec<char>> = Vec::new();
    let mut i: usize = 0;
    while i < records.len()
        invariant
            0 <= i <= records@.len(),
            crate::text::sorted_chars(out@),
            forall|t: Seq<char>|
                crate::text::has_chars(out@, t) <==> exists|m: int|
                    0 <= m < i && records@[m]@.name == t,
        decreases records@.len() - i,
    {
        let rec = &records[i];
        let cs = chars_of(rec.name.as_str());
        insert_sorted(&mut out, cs);
        proof {
            assert forall|t: Seq<char>|
                crate::text::has_chars(out@, t) <==> exists|m: int|
                    0 <= m < i + 1 && records@[m]@.name == t by {
                if crate::text::has_chars(out@, t) {
                    if t == records@[i as int]@.name {
                        assert(records@[i as int]@.name == t);
                    }
                }
                if exists|m: int| 0 <= m < i + 1 && records@[m]@.name == t {
                    let m = choose|m: int| 0 <= m < i + 1 && records@[m]@.name == t;
                    if m < i {
                    } else {
                        assert(t == records@[i as int]@.name);
                    }
                }
            }
        }
        i += 1;
    }
    let r = to_strings(&out);
    proof {
        assert forall|t: Seq<char>| has_str(r@, t) <==> has_name(recs_view(records@), t) by {
            if has_str(r@, t) {
                let k = choose|k: int| 0 <= k < r@.len() && r@[k]@ == t;
                assert(out@[k]@ == t);
                assert(crate::text::has_chars(out@, t));
                let m = choose|m: int| 0 <= m < records@.len() && records@[m]@.name == t;
                assert(recs_view(records@)[m].name == t);
            }
            if has_name(recs_view(records@), t) {
                let m = choose|m: int| 0 <= m < recs_view(records@).len() && recs_view(
                    records@,
                )[m].name == t;
                assert(records@[m]@.name == t);
                assert(crate::text::has_chars(out@, t));
                let k = choose|k: int| 0 <= k < out@.len() && out@[k]@ == t;
                assert(r@[k]@ == t);
            }
        }
        assert forall|p: int, q: int| 0 <= p < q < r@.len() implies crate::text::lex_lt(
            r@[p]@,
            r@[q]@,
        ) by {
            assert(r@[p]@ == out@[p]@);
            assert(r@[q]@ == out@[q]@);
        }
    }
    r
}

/// View of an optional decoded character vector.
pub open spec fn opt_chars_view(o: Option<Vec<char>>) -> Option<Seq<char>> {
    match o {
        Some(v) => Some(v@),
        None => None,
    }
}

} // verus!
