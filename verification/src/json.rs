//! A JSON parser for the streamed response frames.
//!
//! A frame payload is expected to be one JSON object of the shape
//! `{ "choices": [ { "delta": { "content": <string or null> } } ] }`;
//! every unknown field is tolerated and skipped, whatever JSON value it
//! holds. The parse result lists, per choice and in order, the `content`
//! string when one is present.
//!
//! The spec functions in this module are the authoritative grammar: each
//! takes the payload characters and a position, and returns the parsed
//! meaning together with the position after the consumed text, or `None`
//! when the text is not well-formed. The executable functions mirror them
//! exactly.

use vstd::prelude::*;

verus! {

/// Nesting budget when skipping an unknown JSON value, so that skipping
/// recursion is bounded.
pub const SKIP_DEPTH: u32 = 128;

pub open spec fn json_ws(c: char) -> bool {
    c == ' ' || c == '\n' || c == '\r' || c == '\t'
}

pub open spec fn json_digit(c: char) -> bool {
    ('0' as u32) <= (c as u32) && (c as u32) <= ('9' as u32)
}

/// The numeric value of one hexadecimal digit.
pub open spec fn hex_value(c: char) -> Option<u32> {
    if ('0' as u32) <= (c as u32) && (c as u32) <= ('9' as u32) {
        Some((c as u32 - '0' as u32) as u32)
    } else if ('a' as u32) <= (c as u32) && (c as u32) <= ('f' as u32) {
        Some((c as u32 - 'a' as u32 + 10) as u32)
    } else if ('A' as u32) <= (c as u32) && (c as u32) <= ('F' as u32) {
        Some((c as u32 - 'A' as u32 + 10) as u32)
    } else {
        None
    }
}

/// The first position at or after `i` holding no JSON whitespace.
pub open spec fn spec_skip_ws(s: Seq<char>, i: int) -> int
    decreases s.len() - i,
{
    if 0 <= i < s.len() && json_ws(s[i]) {
        spec_skip_ws(s, i + 1)
    } else {
        i
    }
}

/// The first position at or after `i` holding no decimal digit.
pub open spec fn spec_skip_digits(s: Seq<char>, i: int) -> int
    decreases s.len() - i,
{
    if 0 <= i < s.len() && json_digit(s[i]) {
        spec_skip_digits(s, i + 1)
    } else {
        i
    }
}

/// Four hexadecimal digits at `i`, as a value.
pub open spec fn spec_hex4(s: Seq<char>, i: int) -> Option<u32> {
    if 0 <= i && i + 4 <= s.len() {
        match (hex_value(s[i]), hex_value(s[i + 1]), hex_value(s[i + 2]), hex_value(s[i + 3])) {
            (Some(a), Some(b), Some(c), Some(d)) => Some(
                (a * 4096 + b * 256 + c * 16 + d) as u32,
            ),
            _ => None,
        }
    } else {
        None
    }
}

/// A `\uXXXX` escape with `i` at its first hex digit. A high surrogate must
/// be followed by an escaped low surrogate, and the pair yields one
/// supplementary character; a lone surrogate is malformed.
pub open spec fn spec_unicode_escape(s: Seq<char>, i: int) -> Option<(char, int)> {
    match spec_hex4(s, i) {
        None => None,
        Some(u) => {
            if 0xD800 <= u < 0xDC00 {
                if s.len() - i > 5 && s[i + 4] == '\\' && s[i + 5] == 'u' {
                    match spec_hex4(s, i + 6) {
                        None => None,
                        Some(u2) => if 0xDC00 <= u2 < 0xE000 {
                            Some(
                                (
                                    (0x10000 + (u - 0xD800) * 0x400 + (u2 - 0xDC00)) as u32 as char,
                                    i + 10,
                                ),
                            )
                        } else {
                            None
                        },
                    }
                } else {
                    None
                }
            } else if 0xDC00 <= u < 0xE000 {
                None
            } else {
                Some((u as char, i + 4))
            }
        },
    }
}

/// A string escape with `i` at the character after the backslash.
pub open spec fn spec_escape(s: Seq<char>, i: int) -> Option<(char, int)> {
    if !(0 <= i < s.len()) {
        None
    } else {
        let c = s[i];
        if c == '"' {
            Some(('"', i + 1))
        } else if c == '\\' {
            Some(('\\', i + 1))
        } else if c == '/' {
            Some(('/', i + 1))
        } else if c == 'b' {
            Some(('\u{0008}', i + 1))
        } else if c == 'f' {
            Some(('\u{000C}', i + 1))
        } else if c == 'n' {
            Some(('\n', i + 1))
        } else if c == 'r' {
            Some(('\r', i + 1))
        } else if c == 't' {
            Some(('\t', i + 1))
        } else if c == 'u' {
            spec_unicode_escape(s, i + 1)
        } else {
            None
        }
    }
}

/// The rest of a JSON string, with `i` just inside the quotes and `acc` the
/// content decoded so far: yields the full content and the position after
/// the closing quote. An unescaped control character is malformed.
pub open spec fn spec_string_rest(s: Seq<char>, i: int, acc: Seq<char>) -> Option<(Seq<char>, int)>
    decreases s.len() - i,
{
    if !(0 <= i < s.len()) {
        None
    } else {
        let c = s[i];
        if c == '"' {
            Some((acc, i + 1))
        } else if c == '\\' {
            match spec_escape(s, i + 1) {
                None => None,
                Some((e, j)) => if i < j && j <= s.len() {
                    spec_string_rest(s, j, acc.push(e))
                } else {
                    None
                },
            }
        } else if (c as u32) < 0x20 {
            None
        } else {
            spec_string_rest(s, i + 1, acc.push(c))
        }
    }
}

/// The integer part of a number: `0`, or a nonzero digit followed by digits.
pub open spec fn spec_skip_int(s: Seq<char>, i: int) -> Option<int> {
    if 0 <= i < s.len() && json_digit(s[i]) {
        if s[i] == '0' {
            Some(i + 1)
        } else {
            Some(spec_skip_digits(s, i))
        }
    } else {
        None
    }
}

/// An optional fraction part: a dot must carry at least one digit.
pub open spec fn spec_skip_frac(s: Seq<char>, i: int) -> Option<int> {
    if 0 <= i < s.len() && s[i] == '.' {
        let j = spec_skip_digits(s, i + 1);
        if j == i + 1 {
            None
        } else {
            Some(j)
        }
    } else {
        Some(i)
    }
}

/// An optional exponent part: `e`/`E`, an optional sign, then digits.
pub open spec fn spec_skip_exp(s: Seq<char>, i: int) -> Option<int> {
    if 0 <= i < s.len() && (s[i] == 'e' || s[i] == 'E') {
        let j = if i + 1 < s.len() && (s[i + 1] == '+' || s[i + 1] == '-') {
            i + 2
        } else {
            i + 1
        };
        let k = spec_skip_digits(s, j);
        if k == j {
            None
        } else {
            Some(k)
        }
    } else {
        Some(i)
    }
}

/// A complete JSON number with `i` at its first character.
pub open spec fn spec_skip_number(s: Seq<char>, i: int) -> Option<int> {
    let j0 = if 0 <= i < s.len() && s[i] == '-' {
        i + 1
    } else {
        i
    };
    match spec_skip_int(s, j0) {
        None => None,
        Some(j1) => match spec_skip_frac(s, j1) {
            None => None,
            Some(j2) => spec_skip_exp(s, j2),
        },
    }
}

/// The fixed word `lit` at `i`.
pub open spec fn spec_match_lit(s: Seq<char>, i: int, lit: Seq<char>) -> Option<int> {
    if 0 <= i && i + lit.len() <= s.len() && s.subrange(i, i + lit.len() as int) == lit {
        Some(i + lit.len() as int)
    } else {
        None
    }
}

/// Skips one JSON value of any kind with `i` at its first character, with a
/// nesting budget `d` for containers.
pub open spec fn spec_skip_value(s: Seq<char>, i: int, d: int) -> Option<int>
    decreases d, s.len() - i, 0int,
{
    if !(0 <= i < s.len()) {
        None
    } else {
        let c = s[i];
        if c == '{' {
            if d > 0 {
                spec_skip_object(s, i + 1, d)
            } else {
                None
            }
        } else if c == '[' {
            if d > 0 {
                spec_skip_array(s, i + 1, d)
            } else {
                None
            }
        } else if c == '"' {
            match spec_string_rest(s, i + 1, Seq::empty()) {
                None => None,
                Some((_content, j)) => Some(j),
            }
        } else if c == 't' {
            spec_match_lit(s, i, seq!['t', 'r', 'u', 'e'])
        } else if c == 'f' {
            spec_match_lit(s, i, seq!['f', 'a', 'l', 's', 'e'])
        } else if c == 'n' {
            spec_match_lit(s, i, seq!['n', 'u', 'l', 'l'])
        } else if c == '-' || json_digit(c) {
            spec_skip_number(s, i)
        } else {
            None
        }
    }
}

/// Skips the inside of an object with `i` just after the `{`.
pub open spec fn spec_skip_object(s: Seq<char>, i: int, d: int) -> Option<int>
    decreases d, s.len() - i, 2int,
{
    if !(0 <= i <= s.len() && d > 0) {
        None
    } else {
        let j = spec_skip_ws(s, i);
        if i <= j <= s.len() {
            if j < s.len() && s[j] == '}' {
                Some(j + 1)
            } else {
                spec_skip_members(s, j, d)
            }
        } else {
            None
        }
    }
}

/// Skips the members of an object with `i` at the first key's quote; ends
/// just after the closing `}`.
pub open spec fn spec_skip_members(s: Seq<char>, i: int, d: int) -> Option<int>
    decreases d, s.len() - i, 1int,
{
    if !(0 <= i < s.len() && s[i] == '"' && d > 0) {
        None
    } else {
        match spec_string_rest(s, i + 1, Seq::empty()) {
            None => None,
            Some((_key, j)) => {
                let j2 = spec_skip_ws(s, j);
                if j2 < s.len() && s[j2] == ':' {
                    let j3 = spec_skip_ws(s, j2 + 1);
                    if j3 <= s.len() {
                        match spec_skip_value(s, j3, d - 1) {
                            None => None,
                            Some(k) => {
                                let k2 = spec_skip_ws(s, k);
                                if k2 < s.len() && s[k2] == ',' {
                                    let k3 = spec_skip_ws(s, k2 + 1);
                                    if i < k3 && k3 <= s.len() {
                                        spec_skip_members(s, k3, d)
                                    } else {
                                        None
                                    }
                                } else if k2 < s.len() && s[k2] == '}' {
                                    Some(k2 + 1)
                                } else {
                                    None
                                }
                            },
                        }
                    } else {
                        None
                    }
                } else {
                    None
                }
            },
        }
    }
}

pub open spec fn choices_key() -> Seq<char> {
    seq!['c', 'h', 'o', 'i', 'c', 'e', 's']
}

pub open spec fn delta_key() -> Seq<char> {
    seq!['d', 'e', 'l', 't', 'a']
}

pub open spec fn content_key() -> Seq<char> {
    seq!['c', 'o', 'n', 't', 'e', 'n', 't']
}

/// Skips the inside of an array with `i` just after the `[`.
pub open spec fn spec_skip_array(s: Seq<char>, i: int, d: int) -> Option<int>
    decreases d, s.len() - i, 2int,
{
    if !(0 <= i <= s.len() && d > 0) {
        None
    } else {
        let j = spec_skip_ws(s, i);
        if i <= j <= s.len() {
            if j < s.len() && s[j] == ']' {
                Some(j + 1)
            } else {
                spec_skip_elements(s, j, d)
            }
        } else {
            None
        }
    }
}

/// Skips the elements of an array with `i` at the first element; ends just
/// after the closing `]`.
pub open spec fn spec_skip_elements(s: Seq<char>, i: int, d: int) -> Option<int>
    decreases d, s.len() - i, 1int,
{
    if !(0 <= i <= s.len() && d > 0) {
        None
    } else {
        match spec_skip_value(s, i, d - 1) {
            None => None,
            Some(k) => {
                let k2 = spec_skip_ws(s, k);
                if k2 < s.len() && s[k2] == ',' {
                    let k3 = spec_skip_ws(s, k2 + 1);
                    if i < k3 && k3 <= s.len() {
                        spec_skip_elements(s, k3, d)
                    } else {
                        None
                    }
                } else if k2 < s.len() && s[k2] == ']' {
                    Some(k2 + 1)
                } else {
                    None
                }
            },
        }
    }
}

} // verus!

verus! {

/// The `delta` object of one choice, with `i` just after its `{`: yields
/// the `content` string when the object carries one (a `null` or absent
/// `content` yields nothing), and the position after the closing `}`.
pub open spec fn spec_delta_object(s: Seq<char>, i: int) -> Option<(Option<Seq<char>>, int)> {
    if 0 <= i <= s.len() {
        let j = spec_skip_ws(s, i);
        if i <= j <= s.len() {
            if j < s.len() && s[j] == '}' {
                Some((None, j + 1))
            } else {
                spec_delta_members(s, j, None)
            }
        } else {
            None
        }
    } else {
        None
    }
}

/// The members of a `delta` object, with `i` at a key's quote and `found`
/// the `content` seen so far; a repeated `content` key is malformed.
pub open spec fn spec_delta_members(
    s: Seq<char>,
    i: int,
    found: Option<Option<Seq<char>>>,
) -> Option<(Option<Seq<char>>, int)>
    decreases s.len() - i, 1int,
{
    if !(0 <= i < s.len() && s[i] == '"') {
        None
    } else {
        match spec_string_rest(s, i + 1, Seq::empty()) {
            None => None,
            Some((key, j)) => {
                let j2 = spec_skip_ws(s, j);
                if j2 < s.len() && s[j2] == ':' {
                    let j3 = spec_skip_ws(s, j2 + 1);
                    if i < j3 && j3 <= s.len() {
                        if key == content_key() {
                            if found is Some {
                                None
                            } else if j3 < s.len() && s[j3] == '"' {
                                match spec_string_rest(s, j3 + 1, Seq::empty()) {
                                    None => None,
                                    Some((content, k)) => if i < k && k <= s.len() {
                                        spec_delta_after_member(s, k, Some(Some(content)))
                                    } else {
                                        None
                                    },
                                }
                            } else if j3 < s.len() && s[j3] == 'n' {
                                match spec_match_lit(s, j3, seq!['n', 'u', 'l', 'l']) {
                                    None => None,
                                    Some(k) => if i < k && k <= s.len() {
                                        spec_delta_after_member(s, k, Some(None))
                                    } else {
                                        None
                                    },
                                }
                            } else {
                                None
                            }
                        } else {
                            match spec_skip_value(s, j3, SKIP_DEPTH as int) {
                                None => None,
                                Some(k) => if i < k && k <= s.len() {
                                    spec_delta_after_member(s, k, found)
                                } else {
                                    None
                                },
                            }
                        }
                    } else {
                        None
                    }
                } else {
                    None
                }
            },
        }
    }
}

/// After one member of a `delta` object, with `k` just past its value: a
/// comma continues with the next member, a `}` ends the object.
pub open spec fn spec_delta_after_member(
    s: Seq<char>,
    k: int,
    found: Option<Option<Seq<char>>>,
) -> Option<(Option<Seq<char>>, int)>
    decreases s.len() - k, 0int,
{
    if !(0 <= k <= s.len()) {
        None
    } else {
        let k2 = spec_skip_ws(s, k);
        if k2 < s.len() && s[k2] == ',' {
            let k3 = spec_skip_ws(s, k2 + 1);
            if k < k3 && k3 <= s.len() {
                spec_delta_members(s, k3, found)
            } else {
                None
            }
        } else if k2 < s.len() && s[k2] == '}' {
            Some(
                (
                    match found {
                        None => None,
                        Some(c) => c,
                    },
                    k2 + 1,
                ),
            )
        } else {
            None
        }
    }
}

/// One choice object, with `i` just after its `{`: the object must carry a
/// `delta` member, whose `content` is the choice's result.
pub open spec fn spec_choice_object(s: Seq<char>, i: int) -> Option<(Option<Seq<char>>, int)> {
    if 0 <= i <= s.len() {
        let j = spec_skip_ws(s, i);
        if i <= j <= s.len() {
            if j < s.len() && s[j] == '}' {
                None
            } else {
                spec_choice_members(s, j, None)
            }
        } else {
            None
        }
    } else {
        None
    }
}

/// The members of a choice object; `found` is the `delta` result seen so
/// far, and a repeated `delta` key is malformed.
pub open spec fn spec_choice_members(
    s: Seq<char>,
    i: int,
    found: Option<Option<Seq<char>>>,
) -> Option<(Option<Seq<char>>, int)>
    decreases s.len() - i, 1int,
{
    if !(0 <= i < s.len() && s[i] == '"') {
        None
    } else {
        match spec_string_rest(s, i + 1, Seq::empty()) {
            None => None,
            Some((key, j)) => {
                let j2 = spec_skip_ws(s, j);
                if j2 < s.len() && s[j2] == ':' {
                    let j3 = spec_skip_ws(s, j2 + 1);
                    if i < j3 && j3 <= s.len() {
                        if key == delta_key() {
                            if found is Some {
                                None
                            } else if j3 < s.len() && s[j3] == '{' {
                                match spec_delta_object(s, j3 + 1) {
                                    None => None,
                                    Some((content, k)) => if i < k && k <= s.len() {
                                        spec_choice_after_member(s, k, Some(content))
                                    } else {
                                        None
                                    },
                                }
                            } else {
                                None
                            }
                        } else {
                            match spec_skip_value(s, j3, SKIP_DEPTH as int) {
                                None => None,
                                Some(k) => if i < k && k <= s.len() {
                                    spec_choice_after_member(s, k, found)
                                } else {
                                    None
                                },
                            }
                        }
                    } else {
                        None
                    }
                } else {
                    None
                }
            },
        }
    }
}

/// After one member of a choice object: a comma continues, a `}` ends it;
/// ending without having seen `delta` is malformed.
pub open spec fn spec_choice_after_member(
    s: Seq<char>,
    k: int,
    found: Option<Option<Seq<char>>>,
) -> Option<(Option<Seq<char>>, int)>
    decreases s.len() - k, 0int,
{
    if !(0 <= k <= s.len()) {
        None
    } else {
        let k2 = spec_skip_ws(s, k);
        if k2 < s.len() && s[k2] == ',' {
            let k3 = spec_skip_ws(s, k2 + 1);
            if k < k3 && k3 <= s.len() {
                spec_choice_members(s, k3, found)
            } else {
                None
            }
        } else if k2 < s.len() && s[k2] == '}' {
            match found {
                None => None,
                Some(content) => Some((content, k2 + 1)),
            }
        } else {
            None
        }
    }
}

/// The `choices` array, with `i` just after its `[`: yields the per-choice
/// results in order and the position after the closing `]`.
pub open spec fn spec_choices_array(s: Seq<char>, i: int) -> Option<(
    Seq<Option<Seq<char>>>,
    int,
)> {
    if 0 <= i <= s.len() {
        let j = spec_skip_ws(s, i);
        if i <= j <= s.len() {
            if j < s.len() && s[j] == ']' {
                Some((Seq::empty(), j + 1))
            } else {
                spec_choices_elements(s, j, Seq::empty())
            }
        } else {
            None
        }
    } else {
        None
    }
}

/// The elements of the `choices` array, each of which must be a choice
/// object, with `acc` the results gathered so far.
pub open spec fn spec_choices_elements(
    s: Seq<char>,
    i: int,
    acc: Seq<Option<Seq<char>>>,
) -> Option<(Seq<Option<Seq<char>>>, int)>
    decreases s.len() - i,
{
    if !(0 <= i < s.len() && s[i] == '{') {
        None
    } else {
        match spec_choice_object(s, i + 1) {
            None => None,
            Some((content, k)) => {
                if i < k && k <= s.len() {
                    let k2 = spec_skip_ws(s, k);
                    if k2 < s.len() && s[k2] == ',' {
                        let k3 = spec_skip_ws(s, k2 + 1);
                        if i < k3 && k3 <= s.len() {
                            spec_choices_elements(s, k3, acc.push(content))
                        } else {
                            None
                        }
                    } else if k2 < s.len() && s[k2] == ']' {
                        Some((acc.push(content), k2 + 1))
                    } else {
                        None
                    }
                } else {
                    None
                }
            },
        }
    }
}

/// The top-level frame object, with `i` just after its `{`: the object must
/// carry a `choices` member holding an array of choice objects.
pub open spec fn spec_top_object(s: Seq<char>, i: int) -> Option<(Seq<Option<Seq<char>>>, int)> {
    if 0 <= i <= s.len() {
        let j = spec_skip_ws(s, i);
        if i <= j <= s.len() {
            if j < s.len() && s[j] == '}' {
                None
            } else {
                spec_top_members(s, j, None)
            }
        } else {
            None
        }
    } else {
        None
    }
}

/// The members of the frame object; `found` is the `choices` list seen so
/// far, and a repeated `choices` key is malformed.
pub open spec fn spec_top_members(
    s: Seq<char>,
    i: int,
    found: Option<Seq<Option<Seq<char>>>>,
) -> Option<(Seq<Option<Seq<char>>>, int)>
    decreases s.len() - i, 1int,
{
    if !(0 <= i < s.len() && s[i] == '"') {
        None
    } else {
        match spec_string_rest(s, i + 1, Seq::empty()) {
            None => None,
            Some((key, j)) => {
                let j2 = spec_skip_ws(s, j);
                if j2 < s.len() && s[j2] == ':' {
                    let j3 = spec_skip_ws(s, j2 + 1);
                    if i < j3 && j3 <= s.len() {
                        if key == choices_key() {
                            if found is Some {
                                None
                            } else if j3 < s.len() && s[j3] == '[' {
                                match spec_choices_array(s, j3 + 1) {
                                    None => None,
                                    Some((cs, k)) => if i < k && k <= s.len() {
                                        spec_top_after_member(s, k, Some(cs))
                                    } else {
                                        None
                                    },
                                }
                            } else {
                                None
                            }
                        } else {
                            match spec_skip_value(s, j3, SKIP_DEPTH as int) {
                                None => None,
                                Some(k) => if i < k && k <= s.len() {
                                    spec_top_after_member(s, k, found)
                                } else {
                                    None
                                },
                            }
                        }
                    } else {
                        None
                    }
                } else {
                    None
                }
            },
        }
    }
}

/// After one member of the frame object: a comma continues, a `}` ends it;
/// ending without having seen `choices` is malformed.
pub open spec fn spec_top_after_member(
    s: Seq<char>,
    k: int,
    found: Option<Seq<Option<Seq<char>>>>,
) -> Option<(Seq<Option<Seq<char>>>, int)>
    decreases s.len() - k, 0int,
{
    if !(0 <= k <= s.len()) {
        None
    } else {
        let k2 = spec_skip_ws(s, k);
        if k2 < s.len() && s[k2] == ',' {
            let k3 = spec_skip_ws(s, k2 + 1);
            if k < k3 && k3 <= s.len() {
                spec_top_members(s, k3, found)
            } else {
                None
            }
        } else if k2 < s.len() && s[k2] == '}' {
            match found {
                None => None,
                Some(cs) => Some((cs, k2 + 1)),
            }
        } else {
            None
        }
    }
}

/// The meaning of one frame payload: the whole text must be exactly one
/// frame object, up to surrounding whitespace; the result lists each
/// choice's `content` in order, `None` standing for a choice without one.
pub open spec fn spec_parse_frame(s: Seq<char>) -> Option<Seq<Option<Seq<char>>>> {
    let i = spec_skip_ws(s, 0);
    if 0 <= i < s.len() && s[i] == '{' {
        match spec_top_object(s, i + 1) {
            None => None,
            Some((cs, j)) => {
                if 0 <= j <= s.len() {
                    let k = spec_skip_ws(s, j);
                    if k == s.len() {
                        Some(cs)
                    } else {
                        None
                    }
                } else {
                    None
                }
            },
        }
    } else {
        None
    }
}

} // verus!

verus! {

fn is_json_ws(c: char) -> (r: bool)
    ensures
        r == json_ws(c),
{
    c == ' ' || c == '\n' || c == '\r' || c == '\t'
}

fn is_json_digit(c: char) -> (r: bool)
    ensures
        r == json_digit(c),
{
    let u = c as u32;
    '0' as u32 <= u && u <= '9' as u32
}

fn hex_digit(c: char) -> (r: Option<u32>)
    ensures
        r == hex_value(c),
{
    let u = c as u32;
    if '0' as u32 <= u && u <= '9' as u32 {
        Some(u - '0' as u32)
    } else if 'a' as u32 <= u && u <= 'f' as u32 {
        Some(u - 'a' as u32 + 10)
    } else if 'A' as u32 <= u && u <= 'F' as u32 {
        Some(u - 'A' as u32 + 10)
    } else {
        None
    }
}

fn skip_ws(s: &Vec<char>, i: usize) -> (r: usize)
    requires
        i <= s@.len(),
    ensures
        i <= r <= s@.len(),
        r as int == spec_skip_ws(s@, i as int),
{
    let mut cur = i;
    while cur < s.len() && is_json_ws(s[cur])
        invariant
            i <= cur <= s@.len(),
            spec_skip_ws(s@, i as int) == spec_skip_ws(s@, cur as int),
        decreases s@.len() - cur,
    {
        cur = cur + 1;
    }
    cur
}

fn skip_digits(s: &Vec<char>, i: usize) -> (r: usize)
    requires
        i <= s@.len(),
    ensures
        i <= r <= s@.len(),
        r as int == spec_skip_digits(s@, i as int),
{
    let mut cur = i;
    while cur < s.len() && is_json_digit(s[cur])
        invariant
            i <= cur <= s@.len(),
            spec_skip_digits(s@, i as int) == spec_skip_digits(s@, cur as int),
        decreases s@.len() - cur,
    {
        cur = cur + 1;
    }
    cur
}

fn hex4(s: &Vec<char>, i: usize) -> (r: Option<u32>)
    requires
        i <= s@.len(),
    ensures
        r == spec_hex4(s@, i as int),
        r matches Some(u) ==> u <= 0xFFFF,
{
    if s.len() - i >= 4 {
        match (hex_digit(s[i]), hex_digit(s[i + 1]), hex_digit(s[i + 2]), hex_digit(s[i + 3])) {
            (Some(a), Some(b), Some(c), Some(d)) => Some(a * 4096 + b * 256 + c * 16 + d),
            _ => None,
        }
    } else {
        None
    }
}

/// Compares two character vectors for equality of their contents.
fn chars_eq(a: &Vec<char>, b: &Vec<char>) -> (r: bool)
    ensures
        r == (a@ == b@),
{
    if a.len() != b.len() {
        assert(a@ != b@);
        return false;
    }
    let mut k: usize = 0;
    while k < a.len()
        invariant
            k <= a@.len(),
            a@.len() == b@.len(),
            forall|m: int| 0 <= m < k ==> a@[m] == b@[m],
        decreases a@.len() - k,
    {
        if a[k] != b[k] {
            assert(a@ != b@);
            return false;
        }
        k = k + 1;
    }
    proof {
        assert(a@ =~= b@);
    }
    true
}

fn match_lit(s: &Vec<char>, i: usize, lit: &Vec<char>) -> (r: Option<usize>)
    requires
        i <= s@.len(),
    ensures
        (match r {
            None => spec_match_lit(s@, i as int, lit@) is None,
            Some(j) => spec_match_lit(s@, i as int, lit@) == Some(j as int) && i <= j <= s@.len()
                && j - i == lit@.len(),
        }),
{
    if s.len() - i < lit.len() {
        return None;
    }
    let mut k: usize = 0;
    while k < lit.len()
        invariant
            k <= lit@.len(),
            i + lit.len() <= s.len(),
            forall|m: int| 0 <= m < k ==> s@[i + m] == lit@[m],
        decreases lit@.len() - k,
    {
        if s[i + k] != lit[k] {
            proof {
                assert(s@.subrange(i as int, i + lit@.len() as int)[k as int] != lit@[k as int]);
            }
            return None;
        }
        k = k + 1;
    }
    proof {
        assert(s@.subrange(i as int, i + lit@.len() as int) =~= lit@);
    }
    Some(i + lit.len())
}

} // verus!

verus! {

fn unicode_escape_at(s: &Vec<char>, i: usize) -> (r: Option<(char, usize)>)
    requires
        i <= s.len(),
    ensures
        (match r {
            None => spec_unicode_escape(s@, i as int) is None,
            Some((c, j)) => spec_unicode_escape(s@, i as int) == Some((c, j as int)) && i < j
                <= s@.len(),
        }),
{
    match hex4(s, i) {
        None => None,
        Some(u) => {
            if 0xD800 <= u && u < 0xDC00 {
                if s.len() - i > 5 && s[i + 4] == '\\' && s[i + 5] == 'u' {
                    match hex4(s, i + 6) {
                        None => None,
                        Some(u2) => {
                            if 0xDC00 <= u2 && u2 < 0xE000 {
                                let cp: u32 = 0x10000 + (u - 0xD800) * 0x400 + (u2 - 0xDC00);
                                proof {
                                    assert(vstd::utf8::is_scalar(cp));
                                }
                                match crate::text::char_from_u32(cp) {
                                    Some(c) => Some((c, i + 10)),
                                    None => None,
                                }
                            } else {
                                None
                            }
                        },
                    }
                } else {
                    None
                }
            } else if 0xDC00 <= u && u < 0xE000 {
                None
            } else {
                proof {
                    assert(vstd::utf8::is_scalar(u));
                }
                match crate::text::char_from_u32(u) {
                    Some(c) => Some((c, i + 4)),
                    None => None,
                }
            }
        },
    }
}

fn escape_at(s: &Vec<char>, i: usize) -> (r: Option<(char, usize)>)
    requires
        i <= s.len(),
    ensures
        (match r {
            None => spec_escape(s@, i as int) is None,
            Some((c, j)) => spec_escape(s@, i as int) == Some((c, j as int)) && i < j <= s@.len(),
        }),
{
    if i >= s.len() {
        return None;
    }
    let c = s[i];
    if c == '"' {
        Some(('"', i + 1))
    } else if c == '\\' {
        Some(('\\', i + 1))
    } else if c == '/' {
        Some(('/', i + 1))
    } else if c == 'b' {
        Some(('\u{0008}', i + 1))
    } else if c == 'f' {
        Some(('\u{000C}', i + 1))
    } else if c == 'n' {
        Some(('\n', i + 1))
    } else if c == 'r' {
        Some(('\r', i + 1))
    } else if c == 't' {
        Some(('\t', i + 1))
    } else if c == 'u' {
        unicode_escape_at(s, i + 1)
    } else {
        None
    }
}

/// The rest of a JSON string with `i` just inside the quotes: the decoded
/// content and the position after the closing quote.
fn string_body(s: &Vec<char>, i: usize) -> (r: Option<(Vec<char>, usize)>)
    requires
        i <= s.len(),
    ensures
        (match r {
            None => spec_string_rest(s@, i as int, Seq::empty()) is None,
            Some((content, j)) => spec_string_rest(s@, i as int, Seq::empty()) == Some(
                (content@, j as int),
            ) && i < j <= s@.len(),
        }),
{
    let mut acc: Vec<char> = Vec::new();
    let mut cur = i;
    proof {
        assert(acc@ =~= Seq::<char>::empty());
    }
    loop
        invariant
            i <= cur <= s.len(),
            (match spec_string_rest(s@, cur as int, acc@) {
                None => spec_string_rest(s@, i as int, Seq::empty()) is None,
                Some(res) => spec_string_rest(s@, i as int, Seq::empty()) == Some(res),
            }),
        decreases s@.len() - cur,
    {
        if cur >= s.len() {
            return None;
        }
        let c = s[cur];
        if c == '"' {
            return Some((acc, cur + 1));
        } else if c == '\\' {
            match escape_at(s, cur + 1) {
                None => {
                    return None;
                },
                Some((e, j)) => {
                    acc.push(e);
                    cur = j;
                },
            }
        } else if (c as u32) < 0x20 {
            return None;
        } else {
            acc.push(c);
            cur = cur + 1;
        }
    }
}

proof fn lemma_skip_digits_bounds(s: Seq<char>, i: int)
    requires
        0 <= i <= s.len(),
    ensures
        i <= spec_skip_digits(s, i) <= s.len(),
    decreases s.len() - i,
{
    if i < s.len() && json_digit(s[i]) {
        lemma_skip_digits_bounds(s, i + 1);
    }
}

/// A complete JSON number with `i` at its first character.
fn skip_number(s: &Vec<char>, i: usize) -> (r: Option<usize>)
    requires
        i <= s.len(),
    ensures
        (match r {
            None => spec_skip_number(s@, i as int) is None,
            Some(j) => spec_skip_number(s@, i as int) == Some(j as int) && i < j <= s@.len(),
        }),
{
    let j0 = if i < s.len() && s[i] == '-' {
        i + 1
    } else {
        i
    };
    if !(j0 < s.len() && is_json_digit(s[j0])) {
        return None;
    }
    let j1 = if s[j0] == '0' {
        j0 + 1
    } else {
        let t = skip_digits(s, j0);
        proof {
            lemma_skip_digits_bounds(s@, j0 as int + 1);
        }
        t
    };
    let j2 = if j1 < s.len() && s[j1] == '.' {
        let t = skip_digits(s, j1 + 1);
        if t == j1 + 1 {
            return None;
        }
        t
    } else {
        j1
    };
    let j3 = if j2 < s.len() && (s[j2] == 'e' || s[j2] == 'E') {
        let start = if j2 + 1 < s.len() && (s[j2 + 1] == '+' || s[j2 + 1] == '-') {
            j2 + 2
        } else {
            j2 + 1
        };
        let t = skip_digits(s, start);
        if t == start {
            return None;
        }
        t
    } else {
        j2
    };
    Some(j3)
}

} // verus!

verus! {

/// Skips one JSON value of any kind with `i` at its first character.
fn skip_value(s: &Vec<char>, i: usize, d: u32) -> (r: Option<usize>)
    requires
        i <= s.len(),
    ensures
        (match r {
            None => spec_skip_value(s@, i as int, d as int) is None,
            Some(j) => spec_skip_value(s@, i as int, d as int) == Some(j as int) && i < j
                <= s@.len(),
        }),
    decreases d, s@.len() - i, 0int,
{
    if i >= s.len() {
        return None;
    }
    let c = s[i];
    if c == '{' {
        if d > 0 {
            skip_object(s, i + 1, d)
        } else {
            None
        }
    } else if c == '[' {
        if d > 0 {
            skip_array(s, i + 1, d)
        } else {
            None
        }
    } else if c == '"' {
        match string_body(s, i + 1) {
            None => None,
            Some((_content, j)) => Some(j),
        }
    } else if c == 't' {
        let mut lit: Vec<char> = Vec::new();
        lit.push('t');
        lit.push('r');
        lit.push('u');
        lit.push('e');
        proof {
            assert(lit@ =~= seq!['t', 'r', 'u', 'e']);
        }
        match_lit(s, i, &lit)
    } else if c == 'f' {
        let mut lit: Vec<char> = Vec::new();
        lit.push('f');
        lit.push('a');
        lit.push('l');
        lit.push('s');
        lit.push('e');
        proof {
            assert(lit@ =~= seq!['f', 'a', 'l', 's', 'e']);
        }
        match_lit(s, i, &lit)
    } else if c == 'n' {
        let mut lit: Vec<char> = Vec::new();
        lit.push('n');
        lit.push('u');
        lit.push('l');
        lit.push('l');
        proof {
            assert(lit@ =~= seq!['n', 'u', 'l', 'l']);
        }
        match_lit(s, i, &lit)
    } else if c == '-' || is_json_digit(c) {
        skip_number(s, i)
    } else {
        None
    }
}

/// Skips the inside of an object with `i` just after the `{`.
fn skip_object(s: &Vec<char>, i: usize, d: u32) -> (r: Option<usize>)
    requires
        i <= s.len(),
    ensures
        (match r {
            None => spec_skip_object(s@, i as int, d as int) is None,
            Some(j) => spec_skip_object(s@, i as int, d as int) == Some(j as int) && i < j
                <= s@.len(),
        }),
    decreases d, s@.len() - i, 2int,
{
    if d == 0 {
        return None;
    }
    let j = skip_ws(s, i);
    if j < s.len() && s[j] == '}' {
        return Some(j + 1);
    }
    let mut cur = j;
    loop
        invariant
            i <= cur <= s.len(),
            d >= 1,
            (match spec_skip_members(s@, cur as int, d as int) {
                None => spec_skip_object(s@, i as int, d as int) is None,
                Some(res) => spec_skip_object(s@, i as int, d as int) == Some(res),
            }),
        decreases s@.len() - cur,
    {
        if !(cur < s.len() && s[cur] == '"') {
            return None;
        }
        match string_body(s, cur + 1) {
            None => {
                return None;
            },
            Some((_key, j1)) => {
                let j2 = skip_ws(s, j1);
                if !(j2 < s.len() && s[j2] == ':') {
                    return None;
                }
                let j3 = skip_ws(s, j2 + 1);
                match skip_value(s, j3, d - 1) {
                    None => {
                        return None;
                    },
                    Some(k) => {
                        let k2 = skip_ws(s, k);
                        if k2 < s.len() && s[k2] == ',' {
                            let k3 = skip_ws(s, k2 + 1);
                            cur = k3;
                        } else if k2 < s.len() && s[k2] == '}' {
                            return Some(k2 + 1);
                        } else {
                            return None;
                        }
                    },
                }
            },
        }
    }
}

/// Skips the inside of an array with `i` just after the `[`.
fn skip_array(s: &Vec<char>, i: usize, d: u32) -> (r: Option<usize>)
    requires
        i <= s.len(),
    ensures
        (match r {
            None => spec_skip_array(s@, i as int, d as int) is None,
            Some(j) => spec_skip_array(s@, i as int, d as int) == Some(j as int) && i < j
                <= s@.len(),
        }),
    decreases d, s@.len() - i, 2int,
{
    if d == 0 {
        return None;
    }
    let j = skip_ws(s, i);
    if j < s.len() && s[j] == ']' {
        return Some(j + 1);
    }
    let mut cur = j;
    loop
        invariant
            i <= cur <= s.len(),
            d >= 1,
            (match spec_skip_elements(s@, cur as int, d as int) {
                None => spec_skip_array(s@, i as int, d as int) is None,
                Some(res) => spec_skip_array(s@, i as int, d as int) == Some(res),
            }),
        decreases s@.len() - cur,
    {
        match skip_value(s, cur, d - 1) {
            None => {
                return None;
            },
            Some(k) => {
                let k2 = skip_ws(s, k);
                if k2 < s.len() && s[k2] == ',' {
                    let k3 = skip_ws(s, k2 + 1);
                    cur = k3;
                } else if k2 < s.len() && s[k2] == ']' {
                    return Some(k2 + 1);
                } else {
                    return None;
                }
            },
        }
    }
}

} // verus!

verus! {

fn content_key_vec() -> (v: Vec<char>)
    ensures
        v@ == content_key(),
{
    let mut v: Vec<char> = Vec::new();
    v.push('c');
    v.push('o');
    v.push('n');
    v.push('t');
    v.push('e');
    v.push('n');
    v.push('t');
    proof {
        assert(v@ =~= content_key());
    }
    v
}

fn delta_key_vec() -> (v: Vec<char>)
    ensures
        v@ == delta_key(),
{
    let mut v: Vec<char> = Vec::new();
    v.push('d');
    v.push('e');
    v.push('l');
    v.push('t');
    v.push('a');
    proof {
        assert(v@ =~= delta_key());
    }
    v
}

fn choices_key_vec() -> (v: Vec<char>)
    ensures
        v@ == choices_key(),
{
    let mut v: Vec<char> = Vec::new();
    v.push('c');
    v.push('h');
    v.push('o');
    v.push('i');
    v.push('c');
    v.push('e');
    v.push('s');
    proof {
        assert(v@ =~= choices_key());
    }
    v
}

/// Outcome of handling one member of a `delta` object.
enum DeltaStep {
    /// The member or its separator is malformed.
    Fail,
    /// The object closed; the payload is the `content` result and the
    /// position after the `}`.
    Finish(Option<Vec<char>>, usize),
    /// A comma follows; the payload is the updated `content` state and the
    /// position of the next key.
    More(Option<Option<Vec<char>>>, usize),
}

/// Handles one member of a `delta` object, with `cur` at its key's quote.
#[verifier::rlimit(100)]
#[verifier::spinoff_prover]
fn delta_member_step(s: &Vec<char>, cur: usize, found: Option<Option<Vec<char>>>) -> (r:
    DeltaStep)
    requires
        cur <= s.len(),
    ensures
        (match r {
            DeltaStep::Fail => spec_delta_members(s@, cur as int, found.deep_view()) is None,
            DeltaStep::Finish(content, j) => spec_delta_members(s@, cur as int, found.deep_view())
                == Some((content.deep_view(), j as int)) && cur < j <= s@.len(),
            DeltaStep::More(found2, cur2) => spec_delta_members(s@, cur as int, found.deep_view())
                == spec_delta_members(s@, cur2 as int, found2.deep_view()) && cur < cur2
                <= s.len(),
        }),
{
    if !(cur < s.len() && s[cur] == '"') {
        return DeltaStep::Fail;
    }
    match string_body(s, cur + 1) {
        None => DeltaStep::Fail,
        Some((key, j1)) => {
            let j2 = skip_ws(s, j1);
            if !(j2 < s.len() && s[j2] == ':') {
                return DeltaStep::Fail;
            }
            let j3 = skip_ws(s, j2 + 1);
            let ckey = content_key_vec();
            if chars_eq(&key, &ckey) {
                if found.is_some() {
                    return DeltaStep::Fail;
                }
                if j3 < s.len() && s[j3] == '"' {
                    match string_body(s, j3 + 1) {
                        None => DeltaStep::Fail,
                        Some((content, k)) => {
                            proof {
                                assert(content.deep_view() =~= content@);
                            }
                            let k2 = skip_ws(s, k);
                            if k2 < s.len() && s[k2] == ',' {
                                let k3 = skip_ws(s, k2 + 1);
                                DeltaStep::More(Some(Some(content)), k3)
                            } else if k2 < s.len() && s[k2] == '}' {
                                DeltaStep::Finish(Some(content), k2 + 1)
                            } else {
                                DeltaStep::Fail
                            }
                        },
                    }
                } else if j3 < s.len() && s[j3] == 'n' {
                    let mut lit: Vec<char> = Vec::new();
                    lit.push('n');
                    lit.push('u');
                    lit.push('l');
                    lit.push('l');
                    proof {
                        assert(lit@ =~= seq!['n', 'u', 'l', 'l']);
                    }
                    match match_lit(s, j3, &lit) {
                        None => DeltaStep::Fail,
                        Some(k) => {
                            let k2 = skip_ws(s, k);
                            if k2 < s.len() && s[k2] == ',' {
                                let k3 = skip_ws(s, k2 + 1);
                                DeltaStep::More(Some(None), k3)
                            } else if k2 < s.len() && s[k2] == '}' {
                                DeltaStep::Finish(None, k2 + 1)
                            } else {
                                DeltaStep::Fail
                            }
                        },
                    }
                } else {
                    DeltaStep::Fail
                }
            } else {
                match skip_value(s, j3, SKIP_DEPTH) {
                    None => DeltaStep::Fail,
                    Some(k) => {
                        let k2 = skip_ws(s, k);
                        if k2 < s.len() && s[k2] == ',' {
                            let k3 = skip_ws(s, k2 + 1);
                            DeltaStep::More(found, k3)
                        } else if k2 < s.len() && s[k2] == '}' {
                            let content = match found {
                                None => None,
                                Some(c) => c,
                            };
                            DeltaStep::Finish(content, k2 + 1)
                        } else {
                            DeltaStep::Fail
                        }
                    },
                }
            }
        },
    }
}

/// Parses a `delta` object with `i` just after its `{`.
fn parse_delta(s: &Vec<char>, i: usize) -> (r: Option<(Option<Vec<char>>, usize)>)
    requires
        i <= s.len(),
    ensures
        (match r {
            None => spec_delta_object(s@, i as int) is None,
            Some((content, j)) => spec_delta_object(s@, i as int) == Some(
                (content.deep_view(), j as int),
            ) && i < j <= s@.len(),
        }),
{
    let j = skip_ws(s, i);
    if j < s.len() && s[j] == '}' {
        return Some((None, j + 1));
    }
    let mut cur = j;
    let mut found: Option<Option<Vec<char>>> = None;
    loop
        invariant
            i <= cur <= s.len(),
            (match spec_delta_members(s@, cur as int, found.deep_view()) {
                None => spec_delta_object(s@, i as int) is None,
                Some(res) => spec_delta_object(s@, i as int) == Some(res),
            }),
        decreases s@.len() - cur,
    {
        match delta_member_step(s, cur, found) {
            DeltaStep::Fail => {
                return None;
            },
            DeltaStep::Finish(content, k) => {
                return Some((content, k));
            },
            DeltaStep::More(found2, cur2) => {
                found = found2;
                cur = cur2;
            },
        }
    }
}

} // verus!

verus! {

/// Outcome of handling one member of a choice object.
enum ChoiceStep {
    /// The member or its separator is malformed.
    Fail,
    /// The object closed with a `delta` seen; the payload is its `content`
    /// result and the position after the `}`.
    Finish(Option<Vec<char>>, usize),
    /// A comma follows; the payload is the updated `delta` state and the
    /// position of the next key.
    More(Option<Option<Vec<char>>>, usize),
}

/// Handles one member of a choice object, with `cur` at its key's quote.
#[verifier::rlimit(100)]
#[verifier::spinoff_prover]
fn choice_member_step(s: &Vec<char>, cur: usize, found: Option<Option<Vec<char>>>) -> (r:
    ChoiceStep)
    requires
        cur <= s.len(),
    ensures
        (match r {
            ChoiceStep::Fail => spec_choice_members(s@, cur as int, found.deep_view()) is None,
            ChoiceStep::Finish(content, j) => spec_choice_members(
                s@,
                cur as int,
                found.deep_view(),
            ) == Some((content.deep_view(), j as int)) && cur < j <= s@.len(),
            ChoiceStep::More(found2, cur2) => spec_choice_members(
                s@,
                cur as int,
                found.deep_view(),
            ) == spec_choice_members(s@, cur2 as int, found2.deep_view()) && cur < cur2 <= s.len(),
        }),
{
    if !(cur < s.len() && s[cur] == '"') {
        return ChoiceStep::Fail;
    }
    match string_body(s, cur + 1) {
        None => ChoiceStep::Fail,
        Some((key, j1)) => {
            let j2 = skip_ws(s, j1);
            if !(j2 < s.len() && s[j2] == ':') {
                return ChoiceStep::Fail;
            }
            let j3 = skip_ws(s, j2 + 1);
            let dkey = delta_key_vec();
            if chars_eq(&key, &dkey) {
                if found.is_some() {
                    return ChoiceStep::Fail;
                }
                if j3 < s.len() && s[j3] == '{' {
                    match parse_delta(s, j3 + 1) {
                        None => ChoiceStep::Fail,
                        Some((content, k)) => {
                            let k2 = skip_ws(s, k);
                            if k2 < s.len() && s[k2] == ',' {
                                let k3 = skip_ws(s, k2 + 1);
                                ChoiceStep::More(Some(content), k3)
                            } else if k2 < s.len() && s[k2] == '}' {
                                ChoiceStep::Finish(content, k2 + 1)
                            } else {
                                ChoiceStep::Fail
                            }
                        },
                    }
                } else {
                    ChoiceStep::Fail
                }
            } else {
                match skip_value(s, j3, SKIP_DEPTH) {
                    None => ChoiceStep::Fail,
                    Some(k) => {
                        let k2 = skip_ws(s, k);
                        if k2 < s.len() && s[k2] == ',' {
                            let k3 = skip_ws(s, k2 + 1);
                            ChoiceStep::More(found, k3)
                        } else if k2 < s.len() && s[k2] == '}' {
                            match found {
                                None => ChoiceStep::Fail,
                                Some(content) => ChoiceStep::Finish(content, k2 + 1),
                            }
                        } else {
                            ChoiceStep::Fail
                        }
                    },
                }
            }
        },
    }
}

/// Parses one choice object with `i` just after its `{`.
fn parse_choice(s: &Vec<char>, i: usize) -> (r: Option<(Option<Vec<char>>, usize)>)
    requires
        i <= s.len(),
    ensures
        (match r {
            None => spec_choice_object(s@, i as int) is None,
            Some((content, j)) => spec_choice_object(s@, i as int) == Some(
                (content.deep_view(), j as int),
            ) && i < j <= s@.len(),
        }),
{
    let j = skip_ws(s, i);
    if j < s.len() && s[j] == '}' {
        return None;
    }
    let mut cur = j;
    let mut found: Option<Option<Vec<char>>> = None;
    loop
        invariant
            i <= cur <= s.len(),
            (match spec_choice_members(s@, cur as int, found.deep_view()) {
                None => spec_choice_object(s@, i as int) is None,
                Some(res) => spec_choice_object(s@, i as int) == Some(res),
            }),
        decreases s@.len() - cur,
    {
        match choice_member_step(s, cur, found) {
            ChoiceStep::Fail => {
                return None;
            },
            ChoiceStep::Finish(content, k) => {
                return Some((content, k));
            },
            ChoiceStep::More(found2, cur2) => {
                found = found2;
                cur = cur2;
            },
        }
    }
}

/// Parses the `choices` array with `i` just after its `[`.
#[verifier::rlimit(100)]
#[verifier::spinoff_prover]
fn parse_choices(s: &Vec<char>, i: usize) -> (r: Option<(Vec<Option<Vec<char>>>, usize)>)
    requires
        i <= s.len(),
    ensures
        (match r {
            None => spec_choices_array(s@, i as int) is None,
            Some((cs, j)) => spec_choices_array(s@, i as int) == Some(
                (cs.deep_view(), j as int),
            ) && i < j <= s@.len(),
        }),
{
    let j = skip_ws(s, i);
    let mut acc: Vec<Option<Vec<char>>> = Vec::new();
    proof {
        assert(acc.deep_view() =~= Seq::<Option<Seq<char>>>::empty());
    }
    if j < s.len() && s[j] == ']' {
        return Some((acc, j + 1));
    }
    let mut cur = j;
    loop
        invariant
            i <= cur <= s.len(),
            (match spec_choices_elements(s@, cur as int, acc.deep_view()) {
                None => spec_choices_array(s@, i as int) is None,
                Some(res) => spec_choices_array(s@, i as int) == Some(res),
            }),
        decreases s@.len() - cur,
    {
        if !(cur < s.len() && s[cur] == '{') {
            return None;
        }
        match parse_choice(s, cur + 1) {
            None => {
                return None;
            },
            Some((content, k)) => {
                let ghost acc0 = acc.deep_view();
                let ghost cdv = content.deep_view();
                let k2 = skip_ws(s, k);
                if k2 < s.len() && s[k2] == ',' {
                    let k3 = skip_ws(s, k2 + 1);
                    acc.push(content);
                    proof {
                        assert(acc.deep_view() =~= acc0.push(cdv));
                    }
                    cur = k3;
                } else if k2 < s.len() && s[k2] == ']' {
                    acc.push(content);
                    proof {
                        assert(acc.deep_view() =~= acc0.push(cdv));
                    }
                    return Some((acc, k2 + 1));
                } else {
                    return None;
                }
            },
        }
    }
}

/// Outcome of handling one member of the frame object.
enum TopStep {
    /// The member or its separator is malformed.
    Fail,
    /// The object closed with `choices` seen; the payload is the per-choice
    /// results and the position after the `}`.
    Finish(Vec<Option<Vec<char>>>, usize),
    /// A comma follows; the payload is the updated `choices` state and the
    /// position of the next key.
    More(Option<Vec<Option<Vec<char>>>>, usize),
}

/// Handles one member of the frame object, with `cur` at its key's quote.
#[verifier::rlimit(100)]
#[verifier::spinoff_prover]
fn top_member_step(s: &Vec<char>, cur: usize, found: Option<Vec<Option<Vec<char>>>>) -> (r:
    TopStep)
    requires
        cur <= s.len(),
    ensures
        (match r {
            TopStep::Fail => spec_top_members(s@, cur as int, found.deep_view()) is None,
            TopStep::Finish(cs, j) => spec_top_members(s@, cur as int, found.deep_view()) == Some(
                (cs.deep_view(), j as int),
            ) && cur < j <= s@.len(),
            TopStep::More(found2, cur2) => spec_top_members(s@, cur as int, found.deep_view())
                == spec_top_members(s@, cur2 as int, found2.deep_view()) && cur < cur2 <= s.len(),
        }),
{
    if !(cur < s.len() && s[cur] == '"') {
        return TopStep::Fail;
    }
    match string_body(s, cur + 1) {
        None => TopStep::Fail,
        Some((key, j1)) => {
            let j2 = skip_ws(s, j1);
            if !(j2 < s.len() && s[j2] == ':') {
                return TopStep::Fail;
            }
            let j3 = skip_ws(s, j2 + 1);
            let ckey = choices_key_vec();
            if chars_eq(&key, &ckey) {
                if found.is_some() {
                    return TopStep::Fail;
                }
                if j3 < s.len() && s[j3] == '[' {
                    match parse_choices(s, j3 + 1) {
                        None => TopStep::Fail,
                        Some((cs, k)) => {
                            let k2 = skip_ws(s, k);
                            if k2 < s.len() && s[k2] == ',' {
                                let k3 = skip_ws(s, k2 + 1);
                                TopStep::More(Some(cs), k3)
                            } else if k2 < s.len() && s[k2] == '}' {
                                TopStep::Finish(cs, k2 + 1)
                            } else {
                                TopStep::Fail
                            }
                        },
                    }
                } else {
                    TopStep::Fail
                }
            } else {
                match skip_value(s, j3, SKIP_DEPTH) {
                    None => TopStep::Fail,
                    Some(k) => {
                        let k2 = skip_ws(s, k);
                        if k2 < s.len() && s[k2] == ',' {
                            let k3 = skip_ws(s, k2 + 1);
                            TopStep::More(found, k3)
                        } else if k2 < s.len() && s[k2] == '}' {
                            match found {
                                None => TopStep::Fail,
                                Some(cs) => TopStep::Finish(cs, k2 + 1),
                            }
                        } else {
                            TopStep::Fail
                        }
                    },
                }
            }
        },
    }
}

/// Parses the frame object with `i` just after its `{`.
fn parse_top(s: &Vec<char>, i: usize) -> (r: Option<(Vec<Option<Vec<char>>>, usize)>)
    requires
        i <= s.len(),
    ensures
        (match r {
            None => spec_top_object(s@, i as int) is None,
            Some((cs, j)) => spec_top_object(s@, i as int) == Some((cs.deep_view(), j as int)) && i
                < j <= s@.len(),
        }),
{
    let j = skip_ws(s, i);
    if j < s.len() && s[j] == '}' {
        return None;
    }
    let mut cur = j;
    let mut found: Option<Vec<Option<Vec<char>>>> = None;
    loop
        invariant
            i <= cur <= s.len(),
            (match spec_top_members(s@, cur as int, found.deep_view()) {
                None => spec_top_object(s@, i as int) is None,
                Some(res) => spec_top_object(s@, i as int) == Some(res),
            }),
        decreases s@.len() - cur,
    {
        match top_member_step(s, cur, found) {
            TopStep::Fail => {
                return None;
            },
            TopStep::Finish(cs, k) => {
                return Some((cs, k));
            },
            TopStep::More(found2, cur2) => {
                found = found2;
                cur = cur2;
            },
        }
    }
}

/// Parses one frame payload: the whole text must be exactly one frame
/// object, up to surrounding whitespace. The result lists each choice's
/// `content` in order, `None` standing for a choice without one.
pub fn parse_frame_chars(s: &Vec<char>) -> (r: Option<Vec<Option<Vec<char>>>>)
    ensures
        (match r {
            None => spec_parse_frame(s@) is None,
            Some(v) => spec_parse_frame(s@) == Some(v.deep_view()),
        }),
{
    let i = skip_ws(s, 0);
    if !(i < s.len() && s[i] == '{') {
        return None;
    }
    match parse_top(s, i + 1) {
        None => None,
        Some((cs, j)) => {
            let k = skip_ws(s, j);
            if k == s.len() {
                Some(cs)
            } else {
                None
            }
        },
    }
}

} // verus!
