//! Parsing of the declarative text format's scalar pieces.
//!
//! Room documents and the Player archetype's `position` field carry
//! decimal literals in a small textual grammar.  Each executable parser
//! mirrors a specification function over the byte sequence, so a caller
//! knows exactly which inputs parse and what value they denote.

use vstd::prelude::*;

use crate::data::{PrefabData, PrefabDataView};
use crate::field::PrefabField;
use crate::room::Room;
use crate::strmap::StrMap;
use crate::field::FieldView;
use crate::num::{Number, EXPONENT_LIMIT};

verus! {

/// Inputs longer than this are rejected up front; it keeps every decimal
/// exponent a fraction can shift within `from_parts`' accepted range.
pub const MAX_INPUT_LEN: u64 = 0x0100_0000_0000_0000;

/// Document whitespace: space, tab, line feed, carriage return.
pub open spec fn is_ws(b: u8) -> bool {
    b == 32 || b == 9 || b == 10 || b == 13
}

/// An ASCII decimal digit.
pub open spec fn is_digit(b: u8) -> bool {
    48 <= b <= 57
}

/// Index of the first byte at or after `i` that is not whitespace.
pub open spec fn spec_skip_ws(s: Seq<u8>, i: int) -> int
    decreases s.len() - i when 0 <= i <= s.len()

{
    if i < s.len() && is_ws(s[i]) {
        spec_skip_ws(s, i + 1)
    } else {
        i
    }
}

/// Reads digits from `i`, extending the value already in `acc`; stops at
/// the first non-digit.  Fails only if the value would not fit.
pub open spec fn spec_digits(s: Seq<u8>, i: int, acc: u64) -> Option<(u64, int)>
    decreases s.len() - i when 0 <= i <= s.len()

{
    if i < s.len() && is_digit(s[i]) {
        let d = (s[i] - 48) as u64;
        if acc > (u64::MAX - d) / 10 {
            None
        } else {
            spec_digits(s, i + 1, (10 * acc + d) as u64)
        }
    } else {
        Some((acc, i))
    }
}

/// Reads an optional exponent marker after a literal's digits and yields
/// the finished number: `(-1)^negative * mantissa * 10^(e0 + exponent)`.
pub open spec fn spec_number_exp(s: Seq<u8>, i: int, negative: bool, mantissa: u64, e0: int) -> Option<
    (Number, int),
>
    decreases s.len() - i when 0 <= i <= s.len()

{
    if i < s.len() && (s[i] == 101 || s[i] == 69) {
        let neg_e = i + 1 < s.len() && s[i + 1] == 45;
        let k = if i + 1 < s.len() && (s[i + 1] == 45 || s[i + 1] == 43) {
            i + 2
        } else {
            i + 1
        };
        if !(k < s.len() && is_digit(s[k])) {
            None
        } else {
            match spec_digits(s, k, 0) {
                None => None,
                Some((ev, k2)) => if ev > 1_000_000_000 {
                    None
                } else {
                    let e = if neg_e {
                        e0 - ev
                    } else {
                        e0 + ev
                    };
                    Some((Number::spec_normalize(negative, mantissa, e), k2))
                },
            }
        }
    } else {
        Some((Number::spec_normalize(negative, mantissa, e0), i))
    }
}

/// Reads a decimal literal at `i`: an optional minus sign, digits, an
/// optional fraction, an optional exponent.
pub open spec fn spec_number(s: Seq<u8>, i: int) -> Option<(Number, int)>
    decreases s.len() - i when 0 <= i <= s.len()

{
    let negative = i < s.len() && s[i] == 45;
    let j = if negative {
        i + 1
    } else {
        i
    };
    if !(j < s.len() && is_digit(s[j])) {
        None
    } else {
        match spec_digits(s, j, 0) {
            None => None,
            Some((m, j2)) => if j2 < s.len() && s[j2] == 46 {
                if !(j2 + 1 < s.len() && is_digit(s[j2 + 1])) {
                    None
                } else {
                    match spec_digits(s, j2 + 1, m) {
                        None => None,
                        Some((m2, j3)) => spec_number_exp(s, j3, negative, m2, -(j3 - (j2 + 1))),
                    }
                }
            } else {
                spec_number_exp(s, j2, negative, m, 0)
            },
        }
    }
}

/// A parenthesized coordinate pair, as the Player archetype's `position`
/// field carries it: `( x , y )` with optional whitespace, and nothing
/// after the closing parenthesis.
pub open spec fn spec_position(s: Seq<u8>) -> Option<(Number, Number)> {
    let i0 = spec_skip_ws(s, 0);
    if !(i0 < s.len() && s[i0] == 40) {
        None
    } else {
        let i1 = spec_skip_ws(s, i0 + 1);
        match spec_number(s, i1) {
            None => None,
            Some((x, i2)) => {
                let i3 = spec_skip_ws(s, i2);
                if !(i3 < s.len() && s[i3] == 44) {
                    None
                } else {
                    let i4 = spec_skip_ws(s, i3 + 1);
                    match spec_number(s, i4) {
                        None => None,
                        Some((y, i5)) => {
                            let i6 = spec_skip_ws(s, i5);
                            if i6 < s.len() && s[i6] == 41 && spec_skip_ws(s, i6 + 1) == s.len() {
                                Some((x, y))
                            } else {
                                None
                            }
                        },
                    }
                }
            },
        }
    }
}

/// Executable mirror of `spec_skip_ws`.
pub fn skip_ws(s: &[u8], i: usize) -> (r: usize)
    requires
        i <= s@.len(),
    ensures
        r == spec_skip_ws(s@, i as int),
        i <= r <= s@.len(),
    decreases s@.len() - i,
{
    if i < s.len() && (s[i] == 32 || s[i] == 9 || s[i] == 10 || s[i] == 13) {
        skip_ws(s, i + 1)
    } else {
        i
    }
}

/// Executable mirror of `spec_digits`.
pub fn digits(s: &[u8], i: usize, acc: u64) -> (r: Option<(u64, usize)>)
    requires
        i <= s@.len(),
    ensures
        r is Some <==> spec_digits(s@, i as int, acc) is Some,
        r matches Some((v, j)) ==> spec_digits(s@, i as int, acc) == Some((v, j as int)) && i <= j
            <= s@.len(),
    decreases s@.len() - i,
{
    if i < s.len() && 48 <= s[i] && s[i] <= 57 {
        let d: u64 = (s[i] - 48) as u64;
        if acc > (u64::MAX - d) / 10 {
            None
        } else {
            digits(s, i + 1, 10 * acc + d)
        }
    } else {
        Some((acc, i))
    }
}

/// Executable mirror of `spec_number_exp`.
fn number_exp(s: &[u8], i: usize, negative: bool, mantissa: u64, e0: i64) -> (r: Option<
    (Number, usize),
>)
    requires
        i <= s@.len(),
        -EXPONENT_LIMIT + 0x8000_0000 <= e0 <= 0,
    ensures
        r is Some <==> spec_number_exp(s@, i as int, negative, mantissa, e0 as int) is Some,
        r matches Some((n, j)) ==> spec_number_exp(s@, i as int, negative, mantissa, e0 as int)
            == Some((n, j as int)) && i <= j <= s@.len(),
{
    if i < s.len() && (s[i] == 101 || s[i] == 69) {
        let neg_e: bool = i + 1 < s.len() && s[i + 1] == 45;
        let k: usize = if i + 1 < s.len() && (s[i + 1] == 45 || s[i + 1] == 43) {
            i + 2
        } else {
            i + 1
        };
        if !(k < s.len() && 48 <= s[k] && s[k] <= 57) {
            None
        } else {
            match digits(s, k, 0) {
                None => None,
                Some((ev, k2)) => {
                    if ev > 1_000_000_000 {
                        None
                    } else {
                        let e: i64 = if neg_e {
                            e0 - (ev as i64)
                        } else {
                            e0 + (ev as i64)
                        };
                        Some((Number::from_parts(negative, mantissa, e), k2))
                    }
                },
            }
        }
    } else {
        Some((Number::from_parts(negative, mantissa, e0), i))
    }
}

/// Executable mirror of `spec_number`.
pub fn number(s: &[u8], i: usize) -> (r: Option<(Number, usize)>)
    requires
        i <= s@.len(),
        s@.len() <= MAX_INPUT_LEN,
    ensures
        r is Some <==> spec_number(s@, i as int) is Some,
        r matches Some((n, j)) ==> spec_number(s@, i as int) == Some((n, j as int)) && i <= j
            <= s@.len(),
{
    let negative: bool = i < s.len() && s[i] == 45;
    let j: usize = if negative {
        i + 1
    } else {
        i
    };
    if !(j < s.len() && 48 <= s[j] && s[j] <= 57) {
        None
    } else {
        match digits(s, j, 0) {
            None => None,
            Some((m, j2)) => {
                if j2 < s.len() && s[j2] == 46 {
                    if !(j2 + 1 < s.len() && 48 <= s[j2 + 1] && s[j2 + 1] <= 57) {
                        None
                    } else {
                        match digits(s, j2 + 1, m) {
                            None => None,
                            Some((m2, j3)) => {
                                let frac_len: i64 = (j3 - (j2 + 1)) as i64;
                                number_exp(s, j3, negative, m2, -frac_len)
                            },
                        }
                    }
                } else {
                    number_exp(s, j2, negative, m, 0)
                }
            },
        }
    }
}

/// Executable mirror of `spec_position`.
pub fn parse_position(s: &[u8]) -> (r: Option<(Number, Number)>)
    requires
        s@.len() <= MAX_INPUT_LEN,
    ensures
        r == spec_position(s@),
{
    let i0 = skip_ws(s, 0);
    if !(i0 < s.len() && s[i0] == 40) {
        return None;
    }
    let i1 = skip_ws(s, i0 + 1);
    match number(s, i1) {
        None => None,
        Some((x, i2)) => {
            let i3 = skip_ws(s, i2);
            if !(i3 < s.len() && s[i3] == 44) {
                return None;
            }
            let i4 = skip_ws(s, i3 + 1);
            match number(s, i4) {
                None => None,
                Some((y, i5)) => {
                    let i6 = skip_ws(s, i5);
                    if i6 < s.len() && s[i6] == 41 && skip_ws(s, i6 + 1) == s.len() {
                        Some((x, y))
                    } else {
                        None
                    }
                },
            }
        },
    }
}


/// A byte a string literal may carry: printable ASCII except the quote
/// and the backslash.
pub open spec fn is_string_byte(b: u8) -> bool {
    32 <= b <= 126 && b != 34 && b != 92
}

/// Index of the closing quote of a string literal whose content starts
/// at `i`, if the content is well formed.
pub open spec fn spec_string_end(s: Seq<u8>, i: int) -> Option<int>
    decreases s.len() - i when 0 <= i <= s.len()
{
    if i >= s.len() {
        None
    } else if s[i] == 34 {
        Some(i)
    } else if is_string_byte(s[i]) {
        spec_string_end(s, i + 1)
    } else {
        None
    }
}

/// The characters of an ASCII byte sequence.
pub open spec fn chars_of_bytes(s: Seq<u8>) -> Seq<char> {
    s.map(|_i: int, b: u8| b as char)
}

/// A quoted string literal at `i`: its characters and the index after
/// the closing quote.
pub open spec fn spec_string(s: Seq<u8>, i: int) -> Option<(Seq<char>, int)> {
    if !(0 <= i < s.len() && s[i] == 34) {
        None
    } else {
        match spec_string_end(s, i + 1) {
            None => None,
            Some(e) => Some((chars_of_bytes(s.subrange(i + 1, e)), e + 1)),
        }
    }
}

/// The keyword spellings the document grammar knows, as byte tests.
pub open spec fn kw_string_at(s: Seq<u8>, i: int) -> bool {
    i + 6 <= s.len() && s[i] == 83 && s[i + 1] == 116 && s[i + 2] == 114 && s[i + 3] == 105 && s[i
        + 4] == 110 && s[i + 5] == 103
}

pub open spec fn kw_number_at(s: Seq<u8>, i: int) -> bool {
    i + 6 <= s.len() && s[i] == 78 && s[i + 1] == 117 && s[i + 2] == 109 && s[i + 3] == 98 && s[i
        + 4] == 101 && s[i + 5] == 114
}

pub open spec fn kw_bool_at(s: Seq<u8>, i: int) -> bool {
    i + 4 <= s.len() && s[i] == 66 && s[i + 1] == 111 && s[i + 2] == 111 && s[i + 3] == 108
}

pub open spec fn kw_true_at(s: Seq<u8>, i: int) -> bool {
    i + 4 <= s.len() && s[i] == 116 && s[i + 1] == 114 && s[i + 2] == 117 && s[i + 3] == 101
}

pub open spec fn kw_false_at(s: Seq<u8>, i: int) -> bool {
    i + 5 <= s.len() && s[i] == 102 && s[i + 1] == 97 && s[i + 2] == 108 && s[i + 3] == 115 && s[i
        + 4] == 101
}

pub open spec fn kw_type_at(s: Seq<u8>, i: int) -> bool {
    i + 4 <= s.len() && s[i] == 116 && s[i + 1] == 121 && s[i + 2] == 112 && s[i + 3] == 101
}

pub open spec fn kw_fields_at(s: Seq<u8>, i: int) -> bool {
    i + 6 <= s.len() && s[i] == 102 && s[i + 1] == 105 && s[i + 2] == 101 && s[i + 3] == 108 && s[i
        + 4] == 100 && s[i + 5] == 115
}

pub open spec fn kw_prefabs_at(s: Seq<u8>, i: int) -> bool {
    i + 7 <= s.len() && s[i] == 112 && s[i + 1] == 114 && s[i + 2] == 101 && s[i + 3] == 102 && s[i
        + 4] == 97 && s[i + 5] == 98 && s[i + 6] == 115
}

/// One field value at `i`: a variant keyword around a scalar literal.
pub open spec fn spec_field_value(s: Seq<u8>, i: int) -> Option<(FieldView, int)> {
    if kw_string_at(s, i) {
        let j = spec_skip_ws(s, i + 6);
        if !(j < s.len() && s[j] == 40) {
            None
        } else {
            let k = spec_skip_ws(s, j + 1);
            match spec_string(s, k) {
                None => None,
                Some((t, k2)) => {
                    let k3 = spec_skip_ws(s, k2);
                    if k3 < s.len() && s[k3] == 41 {
                        Some((FieldView::StringView(t), k3 + 1))
                    } else {
                        None
                    }
                },
            }
        }
    } else if kw_number_at(s, i) {
        let j = spec_skip_ws(s, i + 6);
        if !(j < s.len() && s[j] == 40) {
            None
        } else {
            let k = spec_skip_ws(s, j + 1);
            match spec_number(s, k) {
                None => None,
                Some((n, k2)) => {
                    let k3 = spec_skip_ws(s, k2);
                    if k3 < s.len() && s[k3] == 41 {
                        Some((FieldView::NumberView(n), k3 + 1))
                    } else {
                        None
                    }
                },
            }
        }
    } else if kw_bool_at(s, i) {
        let j = spec_skip_ws(s, i + 4);
        if !(j < s.len() && s[j] == 40) {
            None
        } else {
            let k = spec_skip_ws(s, j + 1);
            let parsed: Option<(bool, int)> = if kw_true_at(s, k) {
                Some((true, k + 4))
            } else if kw_false_at(s, k) {
                Some((false, k + 5))
            } else {
                None
            };
            match parsed {
                None => None,
                Some((b, k2)) => {
                    let k3 = spec_skip_ws(s, k2);
                    if k3 < s.len() && s[k3] == 41 {
                        Some((FieldView::BoolView(b), k3 + 1))
                    } else {
                        None
                    }
                },
            }
        }
    } else {
        None
    }
}

/// The entries of a field map, after the opening brace: quoted keys,
/// colons, field values, commas; a repeated key is malformed.
pub open spec fn spec_field_entries(s: Seq<u8>, i: int, acc: Map<Seq<char>, FieldView>) -> Option<
    (Map<Seq<char>, FieldView>, int),
>
    decreases s.len() - i when 0 <= i <= s.len()
{
    if i >= s.len() {
        None
    } else if s[i] == 125 {
        Some((acc, i + 1))
    } else {
        match spec_string(s, i) {
            None => None,
            Some((k, j)) => if acc.contains_key(k) {
                None
            } else {
                let j1 = spec_skip_ws(s, j);
                if !(j1 < s.len() && s[j1] == 58) {
                    None
                } else {
                    let j2 = spec_skip_ws(s, j1 + 1);
                    match spec_field_value(s, j2) {
                        None => None,
                        Some((v, j3)) => {
                            let j4 = spec_skip_ws(s, j3);
                            if j4 < s.len() && s[j4] == 44 {
                                let j5 = spec_skip_ws(s, j4 + 1);
                                if i < j5 <= s.len() {
                                    spec_field_entries(s, j5, acc.insert(k, v))
                                } else {
                                    None
                                }
                            } else {
                                if i < j4 <= s.len() {
                                    spec_field_entries(s, j4, acc.insert(k, v))
                                } else {
                                    None
                                }
                            }
                        },
                    }
                }
            },
        }
    }
}

/// A braced field map at `i`.
pub open spec fn spec_field_map(s: Seq<u8>, i: int) -> Option<(Map<Seq<char>, FieldView>, int)> {
    if !(0 <= i < s.len() && s[i] == 123) {
        None
    } else {
        spec_field_entries(s, spec_skip_ws(s, i + 1), Map::empty())
    }
}

/// One prefab entry's body at `i`: `(type: "...", fields: {...})`.
pub open spec fn spec_prefab_data(s: Seq<u8>, i: int) -> Option<(PrefabDataView, int)> {
    if !(0 <= i < s.len() && s[i] == 40) {
        None
    } else {
        let j = spec_skip_ws(s, i + 1);
        if !kw_type_at(s, j) {
            None
        } else {
            let j1 = spec_skip_ws(s, j + 4);
            if !(j1 < s.len() && s[j1] == 58) {
                None
            } else {
                match spec_string(s, spec_skip_ws(s, j1 + 1)) {
                    None => None,
                    Some((t, j2)) => {
                        let j3 = spec_skip_ws(s, j2);
                        if !(j3 < s.len() && s[j3] == 44) {
                            None
                        } else {
                            let j4 = spec_skip_ws(s, j3 + 1);
                            if !kw_fields_at(s, j4) {
                                None
                            } else {
                                let j5 = spec_skip_ws(s, j4 + 6);
                                if !(j5 < s.len() && s[j5] == 58) {
                                    None
                                } else {
                                    match spec_field_map(s, spec_skip_ws(s, j5 + 1)) {
                                        None => None,
                                        Some((m, j6)) => {
                                            let j7 = spec_skip_ws(s, j6);
                                            let j8 = if j7 < s.len() && s[j7] == 44 {
                                                spec_skip_ws(s, j7 + 1)
                                            } else {
                                                j7
                                            };
                                            if j8 < s.len() && s[j8] == 41 {
                                                Some(
                                                    (
                                                        PrefabDataView {
                                                            prefab_type: t,
                                                            fields: m,
                                                        },
                                                        j8 + 1,
                                                    ),
                                                )
                                            } else {
                                                None
                                            }
                                        },
                                    }
                                }
                            }
                        }
                    },
                }
            }
        }
    }
}

/// The entries of the room's prefab map, after the opening brace.
pub open spec fn spec_room_entries(
    s: Seq<u8>,
    i: int,
    acc: Map<Seq<char>, PrefabDataView>,
) -> Option<(Map<Seq<char>, PrefabDataView>, int)>
    decreases s.len() - i when 0 <= i <= s.len()
{
    if i >= s.len() {
        None
    } else if s[i] == 125 {
        Some((acc, i + 1))
    } else {
        match spec_string(s, i) {
            None => None,
            Some((k, j)) => if acc.contains_key(k) {
                None
            } else {
                let j1 = spec_skip_ws(s, j);
                if !(j1 < s.len() && s[j1] == 58) {
                    None
                } else {
                    let j2 = spec_skip_ws(s, j1 + 1);
                    match spec_prefab_data(s, j2) {
                        None => None,
                        Some((v, j3)) => {
                            let j4 = spec_skip_ws(s, j3);
                            if j4 < s.len() && s[j4] == 44 {
                                let j5 = spec_skip_ws(s, j4 + 1);
                                if i < j5 <= s.len() {
                                    spec_room_entries(s, j5, acc.insert(k, v))
                                } else {
                                    None
                                }
                            } else {
                                if i < j4 <= s.len() {
                                    spec_room_entries(s, j4, acc.insert(k, v))
                                } else {
                                    None
                                }
                            }
                        },
                    }
                }
            },
        }
    }
}

/// The tail of a room document after its prefab map: an optional
/// trailing comma, the closing parenthesis, then only whitespace.
pub open spec fn spec_room_close(s: Seq<u8>, m: Map<Seq<char>, PrefabDataView>, j3: int) -> Option<
    (Map<Seq<char>, PrefabDataView>, int),
> {
    let j4 = spec_skip_ws(s, j3);
    let j5 = if j4 < s.len() && s[j4] == 44 {
        spec_skip_ws(s, j4 + 1)
    } else {
        j4
    };
    if j5 < s.len() && s[j5] == 41 && spec_skip_ws(s, j5 + 1) == s.len() {
        Some((m, s.len() as int))
    } else {
        None
    }
}

/// Where the room's prefab map must start: after the leading parenthesis,
/// the `prefabs` keyword and its colon.
pub open spec fn spec_room_open(s: Seq<u8>) -> Option<int> {
    let i = spec_skip_ws(s, 0);
    if !(i < s.len() && s[i] == 40) {
        None
    } else {
        let j = spec_skip_ws(s, i + 1);
        if !kw_prefabs_at(s, j) {
            None
        } else {
            let j1 = spec_skip_ws(s, j + 7);
            if !(j1 < s.len() && s[j1] == 58) {
                None
            } else {
                let j2 = spec_skip_ws(s, j1 + 1);
                if j2 < s.len() && s[j2] == 123 {
                    Some(spec_skip_ws(s, j2 + 1))
                } else {
                    None
                }
            }
        }
    }
}

/// A whole room document: the keyword `prefabs` bound to a braced map
/// of prefab entries, all wrapped in parentheses, with nothing but
/// whitespace around it.  The parsed prefab map, with the document length.
pub open spec fn spec_room(s: Seq<u8>) -> Option<(Map<Seq<char>, PrefabDataView>, int)> {
    match spec_room_open(s) {
        None => None,
        Some(j2) => match spec_room_entries(s, j2, Map::empty()) {
            None => None,
            Some((m, j3)) => spec_room_close(s, m, j3),
        },
    }
}


/// Up to the closing quote, a literal's bytes are all string bytes.
pub proof fn lemma_string_end_bytes(s: Seq<u8>, i: int)
    requires
        0 <= i <= s.len(),
        spec_string_end(s, i) is Some,
    ensures
        i <= spec_string_end(s, i).unwrap() < s.len(),
        s[spec_string_end(s, i).unwrap()] == 34,
        forall|k: int| i <= k < spec_string_end(s, i).unwrap() ==> is_string_byte(#[trigger] s[k]),
    decreases s.len() - i,
{
    if i < s.len() && s[i] != 34 && is_string_byte(s[i]) {
        lemma_string_end_bytes(s, i + 1);
    }
}

/// Relies on String::from_utf8: a vector of ASCII bytes is valid UTF-8,
/// and the resulting string's characters are exactly those bytes.
#[verifier::external_body]
fn string_from_ascii(bytes: Vec<u8>) -> (r: String)
    requires
        forall|i: int| 0 <= i < bytes@.len() ==> #[trigger] bytes@[i] < 128,
    ensures
        r@ == chars_of_bytes(bytes@),
{
    String::from_utf8(bytes).unwrap()
}


/// Whether at least `n` bytes remain at `i`, computed without overflow.
fn remaining_at_least(s: &[u8], i: usize, n: usize) -> (r: bool)
    requires
        i <= s@.len(),
    ensures
        r == (i + n <= s@.len()),
{
    s.len() - i >= n
}

/// Executable mirror of `spec_string_end`.
fn string_end(s: &[u8], i: usize) -> (r: Option<usize>)
    requires
        i <= s@.len(),
    ensures
        r is Some <==> spec_string_end(s@, i as int) is Some,
        r matches Some(e) ==> spec_string_end(s@, i as int) == Some(e as int) && i <= e
            < s@.len(),
    decreases s@.len() - i,
{
    if i >= s.len() {
        None
    } else if s[i] == 34 {
        Some(i)
    } else if 32 <= s[i] && s[i] <= 126 && s[i] != 92 {
        string_end(s, i + 1)
    } else {
        None
    }
}

/// Executable mirror of `spec_string`: a quoted ASCII string literal.
fn parse_string(s: &[u8], i: usize) -> (r: Option<(String, usize)>)
    requires
        i <= s@.len(),
    ensures
        r is Some <==> spec_string(s@, i as int) is Some,
        r matches Some((t, j)) ==> spec_string(s@, i as int) matches Some((tv, jv)) && t@ == tv
            && j as int == jv && i < j <= s@.len(),
{
    if !(i < s.len() && s[i] == 34) {
        return None;
    }
    match string_end(s, i + 1) {
        None => None,
        Some(e) => {
            proof {
                lemma_string_end_bytes(s@, i + 1);
            }
            let mut bytes: Vec<u8> = Vec::new();
            let mut k: usize = i + 1;
            while k < e
                invariant
                    i + 1 <= k <= e < s@.len(),
                    spec_string_end(s@, i + 1 as int) == Some(e as int),
                    bytes@ == s@.subrange(i + 1, k as int),
                    forall|m: int| i + 1 <= m < e ==> is_string_byte(#[trigger] s@[m]),
                decreases e - k,
            {
                bytes.push(s[k]);
                proof {
                    assert(bytes@ =~= s@.subrange(i + 1, k + 1));
                }
                k = k + 1;
            }
            let t = string_from_ascii(bytes);
            Some((t, e + 1))
        },
    }
}

/// Executable mirror of `spec_field_value`.
fn field_value(s: &[u8], i: usize) -> (r: Option<(PrefabField, usize)>)
    requires
        i <= s@.len(),
        s@.len() <= MAX_INPUT_LEN,
    ensures
        r is Some <==> spec_field_value(s@, i as int) is Some,
        r matches Some((f, j)) ==> spec_field_value(s@, i as int) matches Some((fv, jv)) && f@
            == fv && j as int == jv && i < j <= s@.len(),
{
    if remaining_at_least(s, i, 6) && s[i] == 83 && s[i + 1] == 116 && s[i + 2] == 114 && s[i + 3] == 105
        && s[i + 4] == 110 && s[i + 5] == 103 {
        let j = skip_ws(s, i + 6);
        if !(j < s.len() && s[j] == 40) {
            return None;
        }
        let k = skip_ws(s, j + 1);
        match parse_string(s, k) {
            None => None,
            Some((t, k2)) => {
                let k3 = skip_ws(s, k2);
                if k3 < s.len() && s[k3] == 41 {
                    Some((PrefabField::StringValue(t), k3 + 1))
                } else {
                    None
                }
            },
        }
    } else if remaining_at_least(s, i, 6) && s[i] == 78 && s[i + 1] == 117 && s[i + 2] == 109 && s[i + 3]
        == 98 && s[i + 4] == 101 && s[i + 5] == 114 {
        let j = skip_ws(s, i + 6);
        if !(j < s.len() && s[j] == 40) {
            return None;
        }
        let k = skip_ws(s, j + 1);
        match number(s, k) {
            None => None,
            Some((n, k2)) => {
                let k3 = skip_ws(s, k2);
                if k3 < s.len() && s[k3] == 41 {
                    Some((PrefabField::NumberValue(n), k3 + 1))
                } else {
                    None
                }
            },
        }
    } else if remaining_at_least(s, i, 4) && s[i] == 66 && s[i + 1] == 111 && s[i + 2] == 111 && s[i + 3]
        == 108 {
        let j = skip_ws(s, i + 4);
        if !(j < s.len() && s[j] == 40) {
            return None;
        }
        let k = skip_ws(s, j + 1);
        let parsed: Option<(bool, usize)> = if remaining_at_least(s, k, 4) && s[k] == 116 && s[k + 1] == 114
            && s[k + 2] == 117 && s[k + 3] == 101 {
            Some((true, k + 4))
        } else if remaining_at_least(s, k, 5) && s[k] == 102 && s[k + 1] == 97 && s[k + 2] == 108 && s[k + 3]
            == 115 && s[k + 4] == 101 {
            Some((false, k + 5))
        } else {
            None
        };
        match parsed {
            None => None,
            Some((b, k2)) => {
                let k3 = skip_ws(s, k2);
                if k3 < s.len() && s[k3] == 41 {
                    Some((PrefabField::BoolValue(b), k3 + 1))
                } else {
                    None
                }
            },
        }
    } else {
        None
    }
}

/// Executable mirror of `spec_field_entries`.
fn field_entries(s: &[u8], i: usize, acc: StrMap<PrefabField>) -> (r: Option<
    (StrMap<PrefabField>, usize),
>)
    requires
        i <= s@.len(),
        s@.len() <= MAX_INPUT_LEN,
        acc.wf(),
    ensures
        r is Some <==> spec_field_entries(s@, i as int, acc@) is Some,
        r matches Some((m, j)) ==> spec_field_entries(s@, i as int, acc@) matches Some((mv, jv))
            && m@ == mv && j as int == jv && m.wf() && j <= s@.len(),
    decreases s@.len() - i,
{
    if i >= s.len() {
        None
    } else if s[i] == 125 {
        Some((acc, i + 1))
    } else {
        match parse_string(s, i) {
            None => None,
            Some((k, j)) => {
                if acc.contains_key(&k) {
                    return None;
                }
                let j1 = skip_ws(s, j);
                if !(j1 < s.len() && s[j1] == 58) {
                    return None;
                }
                let j2 = skip_ws(s, j1 + 1);
                match field_value(s, j2) {
                    None => None,
                    Some((v, j3)) => {
                        let j4 = skip_ws(s, j3);
                        let mut acc2 = acc;
                        acc2.insert(k, v);
                        if j4 < s.len() && s[j4] == 44 {
                            let j5 = skip_ws(s, j4 + 1);
                            if i < j5 && j5 <= s.len() {
                                field_entries(s, j5, acc2)
                            } else {
                                None
                            }
                        } else {
                            if i < j4 && j4 <= s.len() {
                                field_entries(s, j4, acc2)
                            } else {
                                None
                            }
                        }
                    },
                }
            },
        }
    }
}

/// Executable mirror of `spec_prefab_data`.
fn prefab_data_at(s: &[u8], i: usize) -> (r: Option<(PrefabData, usize)>)
    requires
        i <= s@.len(),
        s@.len() <= MAX_INPUT_LEN,
    ensures
        r is Some <==> spec_prefab_data(s@, i as int) is Some,
        r matches Some((d, j)) ==> spec_prefab_data(s@, i as int) matches Some((dv, jv)) && d@
            == dv && j as int == jv && d.wf() && j <= s@.len(),
{
    if !(i < s.len() && s[i] == 40) {
        return None;
    }
    let j = skip_ws(s, i + 1);
    if !(remaining_at_least(s, j, 4) && s[j] == 116 && s[j + 1] == 121 && s[j + 2] == 112 && s[j + 3] == 101) {
        return None;
    }
    let j1 = skip_ws(s, j + 4);
    if !(j1 < s.len() && s[j1] == 58) {
        return None;
    }
    match parse_string(s, skip_ws(s, j1 + 1)) {
        None => None,
        Some((t, j2)) => {
            let j3 = skip_ws(s, j2);
            if !(j3 < s.len() && s[j3] == 44) {
                return None;
            }
            let j4 = skip_ws(s, j3 + 1);
            if !(remaining_at_least(s, j4, 6) && s[j4] == 102 && s[j4 + 1] == 105 && s[j4 + 2] == 101 && s[j4
                + 3] == 108 && s[j4 + 4] == 100 && s[j4 + 5] == 115) {
                return None;
            }
            let j5 = skip_ws(s, j4 + 6);
            if !(j5 < s.len() && s[j5] == 58) {
                return None;
            }
            let fm = skip_ws(s, j5 + 1);
            if !(fm < s.len() && s[fm] == 123) {
                return None;
            }
            match field_entries(s, skip_ws(s, fm + 1), StrMap::new()) {
                None => None,
                Some((m, j6)) => {
                    let j7 = skip_ws(s, j6);
                    let j8 = if j7 < s.len() && s[j7] == 44 {
                        skip_ws(s, j7 + 1)
                    } else {
                        j7
                    };
                    if j8 < s.len() && s[j8] == 41 {
                        Some((PrefabData { prefab_type: t, fields: m }, j8 + 1))
                    } else {
                        None
                    }
                },
            }
        },
    }
}

/// Executable mirror of `spec_room_entries`.
fn room_entries(s: &[u8], i: usize, acc: StrMap<PrefabData>) -> (r: Option<
    (StrMap<PrefabData>, usize),
>)
    requires
        i <= s@.len(),
        s@.len() <= MAX_INPUT_LEN,
        acc.wf(),
        forall|k: int| 0 <= k < acc.entries().len() ==> (#[trigger] acc.entries()[k]).1.wf(),
    ensures
        r is Some <==> spec_room_entries(s@, i as int, acc@) is Some,
        r matches Some((m, j)) ==> spec_room_entries(s@, i as int, acc@) matches Some((mv, jv))
            && m@ == mv && j as int == jv && m.wf() && j <= s@.len() && (forall|k: int|
            0 <= k < m.entries().len() ==> (#[trigger] m.entries()[k]).1.wf()),
    decreases s@.len() - i,
{
    if i >= s.len() {
        None
    } else if s[i] == 125 {
        Some((acc, i + 1))
    } else {
        match parse_string(s, i) {
            None => None,
            Some((k, j)) => {
                if acc.contains_key(&k) {
                    return None;
                }
                let j1 = skip_ws(s, j);
                if !(j1 < s.len() && s[j1] == 58) {
                    return None;
                }
                let j2 = skip_ws(s, j1 + 1);
                match prefab_data_at(s, j2) {
                    None => None,
                    Some((v, j3)) => {
                        let j4 = skip_ws(s, j3);
                        let mut acc2 = acc;
                        acc2.insert(k, v);
                        if j4 < s.len() && s[j4] == 44 {
                            let j5 = skip_ws(s, j4 + 1);
                            if i < j5 && j5 <= s.len() {
                                room_entries(s, j5, acc2)
                            } else {
                                None
                            }
                        } else {
                            if i < j4 && j4 <= s.len() {
                                room_entries(s, j4, acc2)
                            } else {
                                None
                            }
                        }
                    },
                }
            },
        }
    }
}

/// A malformed room document.  The load fails, the room is not installed,
/// and no entities are touched.
#[derive(Clone, Copy, PartialEq, Eq, Structural, Debug)]
pub struct ParseError;

/// The room asset loader: parses the declarative text format into a
/// `Room` document for the host asset pipeline.
pub struct RoomLoader;

impl RoomLoader {
    /// Parses raw bytes into a room document.  The result is exactly what
    /// the document grammar gives: malformed text is a `ParseError` and
    /// installs nothing.
    pub fn load(&self, bytes: &[u8]) -> (r: Result<Room, ParseError>)
        requires
            bytes@.len() <= MAX_INPUT_LEN,
        ensures
            match r {
                Ok(room) => spec_room(bytes@) matches Some((m, _)) && room@ == m && room.wf(),
                Err(_) => spec_room(bytes@) is None,
            },
    {
        let i = skip_ws(bytes, 0);
        if !(i < bytes.len() && bytes[i] == 40) {
            return Err(ParseError);
        }
        let j = skip_ws(bytes, i + 1);
        if !(remaining_at_least(bytes, j, 7) && bytes[j] == 112 && bytes[j + 1] == 114 && bytes[j + 2] == 101
            && bytes[j + 3] == 102 && bytes[j + 4] == 97 && bytes[j + 5] == 98 && bytes[j + 6]
            == 115) {
            return Err(ParseError);
        }
        let j1 = skip_ws(bytes, j + 7);
        if !(j1 < bytes.len() && bytes[j1] == 58) {
            return Err(ParseError);
        }
        let j2 = skip_ws(bytes, j1 + 1);
        if !(j2 < bytes.len() && bytes[j2] == 123) {
            return Err(ParseError);
        }
        match room_entries(bytes, skip_ws(bytes, j2 + 1), StrMap::new()) {
            None => Err(ParseError),
            Some((m, j3)) => {
                let j4 = skip_ws(bytes, j3);
                let j5 = if j4 < bytes.len() && bytes[j4] == 44 {
                    skip_ws(bytes, j4 + 1)
                } else {
                    j4
                };
                if j5 < bytes.len() && bytes[j5] == 41 && skip_ws(bytes, j5 + 1) == bytes.len() {
                    Ok(Room { prefabs: m })
                } else {
                    Err(ParseError)
                }
            },
        }
    }

    /// The file suffixes routed to this loader: generic declarative data
    /// and room data, parsed identically.
    pub fn extensions(&self) -> (r: Vec<&'static str>)
        ensures
            r@.len() == 2,
            r@[0]@ == "ron"@,
            r@[1]@ == "room"@,
    {
        let mut v: Vec<&'static str> = Vec::new();
        v.push("ron");
        v.push("room");
        v
    }
}

} // verus!
