//! The on-disk record format: flat JSON objects whose member values are
//! strings, numbers, booleans, nulls, or arrays of such scalars. This is the
//! shape every client and commission record ever written has; anything else
//! fails the parse of that one file and the file is skipped by listings.
//!
//! The spec-level parser below is the definition of the format; the
//! executable parser is proved to return exactly what the spec parser says.
//! String escapes cover the standard short escapes and `\u00XX`; numbers are
//! kept as their lexeme and interpreted by the record layer.

use vstd::prelude::*;
use crate::strutil::{str_to_chars, string_push};

verus! {

/// A scalar JSON value; a number is kept as its lexeme.
pub enum JsonScalar {
    Null,
    Bool(bool),
    Num(String),
    Str(String),
}

/// A member value: a scalar, or an array of scalars.
pub enum JsonVal {
    Scalar(JsonScalar),
    Arr(Vec<JsonScalar>),
}

/// One `key: value` member of an object.
pub struct JsonMember {
    pub key: String,
    pub val: JsonVal,
}

/// A parsed record: the members of one flat JSON object, in textual order.
pub struct JsonObj {
    pub members: Vec<JsonMember>,
}

/// The mathematical value of a scalar.
pub ghost enum ScalarV {
    Null,
    Bool(bool),
    Num(Seq<char>),
    Str(Seq<char>),
}

/// The mathematical value of a member value.
pub ghost enum ValV {
    Scalar(ScalarV),
    Arr(Seq<ScalarV>),
}

/// The mathematical value of a member.
pub ghost struct MemberV {
    pub key: Seq<char>,
    pub val: ValV,
}

impl View for JsonScalar {
    type V = ScalarV;

    open spec fn view(&self) -> ScalarV {
        match self {
            JsonScalar::Null => ScalarV::Null,
            JsonScalar::Bool(b) => ScalarV::Bool(*b),
            JsonScalar::Num(l) => ScalarV::Num(l@),
            JsonScalar::Str(s) => ScalarV::Str(s@),
        }
    }
}

impl View for JsonVal {
    type V = ValV;

    open spec fn view(&self) -> ValV {
        match self {
            JsonVal::Scalar(v) => ValV::Scalar(v@),
            JsonVal::Arr(a) => ValV::Arr(a@.map_values(|x: JsonScalar| x@)),
        }
    }
}

impl View for JsonMember {
    type V = MemberV;

    open spec fn view(&self) -> MemberV {
        MemberV { key: self.key@, val: self.val@ }
    }
}

impl View for JsonObj {
    type V = Seq<MemberV>;

    open spec fn view(&self) -> Seq<MemberV> {
        self.members@.map_values(|m: JsonMember| m@)
    }
}

/// JSON insignificant whitespace.
pub open spec fn is_ws(c: char) -> bool {
    c == ' ' || c == '\t' || c == '\n' || c == '\r'
}

/// A character that can occur in a number lexeme.
pub open spec fn is_num_char(c: char) -> bool {
    ('0' <= c && c <= '9') || c == '-' || c == '+' || c == '.' || c == 'e' || c == 'E'
}

/// A hexadecimal digit.
pub open spec fn is_hex(c: char) -> bool {
    ('0' <= c && c <= '9') || ('a' <= c && c <= 'f') || ('A' <= c && c <= 'F')
}

/// The value of a hexadecimal digit.
pub open spec fn hex_val(c: char) -> int {
    if '0' <= c && c <= '9' {
        c as int - '0' as int
    } else if 'a' <= c && c <= 'f' {
        c as int - 'a' as int + 10
    } else {
        c as int - 'A' as int + 10
    }
}

/// The first position at or after `i` holding no whitespace.
pub open spec fn ws_end(s: Seq<char>, i: int) -> int
    decreases s.len() - i,
{
    if 0 <= i < s.len() && is_ws(s[i]) {
        ws_end(s, i + 1)
    } else {
        i
    }
}

pub proof fn lemma_ws_end(s: Seq<char>, i: int)
    requires
        0 <= i <= s.len(),
    ensures
        i <= ws_end(s, i) <= s.len(),
        ws_end(s, i) == s.len() || !is_ws(s[ws_end(s, i)]),
    decreases s.len() - i,
{
    if i < s.len() && is_ws(s[i]) {
        lemma_ws_end(s, i + 1);
    }
}

/// The end of the number-character run starting at `i`.
pub open spec fn num_end(s: Seq<char>, i: int) -> int
    decreases s.len() - i,
{
    if 0 <= i < s.len() && is_num_char(s[i]) {
        num_end(s, i + 1)
    } else {
        i
    }
}

pub proof fn lemma_num_end(s: Seq<char>, i: int)
    requires
        0 <= i <= s.len(),
    ensures
        i <= num_end(s, i) <= s.len(),
        num_end(s, i) == s.len() || !is_num_char(s[num_end(s, i)]),
        forall|j: int| i <= j < num_end(s, i) ==> is_num_char(s[j]),
    decreases s.len() - i,
{
    if i < s.len() && is_num_char(s[i]) {
        lemma_num_end(s, i + 1);
    }
}

/// The characters of a string literal read from position `i` (just inside
/// the opening quote) up to its closing quote, appended to `acc`; the
/// returned position is just past the closing quote.
pub open spec fn sp_str_body(s: Seq<char>, i: int, acc: Seq<char>) -> Option<(Seq<char>, int)>
    decreases s.len() - i,
{
    if i < 0 || i >= s.len() {
        None
    } else if s[i] == '"' {
        Some((acc, i + 1))
    } else if s[i] == '\\' {
        if i + 1 >= s.len() {
            None
        } else {
            let e = s[i + 1];
            if e == '"' || e == '\\' || e == '/' {
                sp_str_body(s, i + 2, acc.push(e))
            } else if e == 'n' {
                sp_str_body(s, i + 2, acc.push('\n'))
            } else if e == 't' {
                sp_str_body(s, i + 2, acc.push('\t'))
            } else if e == 'r' {
                sp_str_body(s, i + 2, acc.push('\r'))
            } else if e == 'b' {
                sp_str_body(s, i + 2, acc.push(8u8 as char))
            } else if e == 'f' {
                sp_str_body(s, i + 2, acc.push(12u8 as char))
            } else if e == 'u' {
                if i + 6 <= s.len() && s[i + 2] == '0' && s[i + 3] == '0' && is_hex(s[i + 4])
                    && is_hex(s[i + 5]) {
                    sp_str_body(
                        s,
                        i + 6,
                        acc.push(((hex_val(s[i + 4]) * 16 + hex_val(s[i + 5])) as u8) as char),
                    )
                } else {
                    None
                }
            } else {
                None
            }
        }
    } else {
        sp_str_body(s, i + 1, acc.push(s[i]))
    }
}

pub proof fn lemma_sp_str_body_bounds(s: Seq<char>, i: int, acc: Seq<char>)
    requires
        0 <= i <= s.len(),
    ensures
        match sp_str_body(s, i, acc) {
            Some(r) => i < r.1 <= s.len(),
            None => true,
        },
    decreases s.len() - i,
{
    if i < s.len() && s[i] != '"' {
        if s[i] == '\\' && i + 1 < s.len() {
            let e = s[i + 1];
            if e == 'u' {
                if i + 6 <= s.len() && s[i + 2] == '0' && s[i + 3] == '0' && is_hex(s[i + 4])
                    && is_hex(s[i + 5]) {
                    lemma_sp_str_body_bounds(
                        s,
                        i + 6,
                        acc.push(((hex_val(s[i + 4]) * 16 + hex_val(s[i + 5])) as u8) as char),
                    );
                }
            } else if e == '"' || e == '\\' || e == '/' {
                lemma_sp_str_body_bounds(s, i + 2, acc.push(e));
            } else if e == 'n' {
                lemma_sp_str_body_bounds(s, i + 2, acc.push('\n'));
            } else if e == 't' {
                lemma_sp_str_body_bounds(s, i + 2, acc.push('\t'));
            } else if e == 'r' {
                lemma_sp_str_body_bounds(s, i + 2, acc.push('\r'));
            } else if e == 'b' {
                lemma_sp_str_body_bounds(s, i + 2, acc.push(8u8 as char));
            } else if e == 'f' {
                lemma_sp_str_body_bounds(s, i + 2, acc.push(12u8 as char));
            }
        } else if s[i] != '\\' {
            lemma_sp_str_body_bounds(s, i + 1, acc.push(s[i]));
        }
    }
}

/// One scalar read from position `i`.
pub open spec fn sp_scalar(s: Seq<char>, i: int) -> Option<(ScalarV, int)> {
    if i < 0 || i >= s.len() {
        None
    } else if s[i] == '"' {
        match sp_str_body(s, i + 1, Seq::empty()) {
            Some(r) => Some((ScalarV::Str(r.0), r.1)),
            None => None,
        }
    } else if s[i] == 't' {
        if i + 4 <= s.len() && s.subrange(i, i + 4) == "true"@ {
            Some((ScalarV::Bool(true), i + 4))
        } else {
            None
        }
    } else if s[i] == 'f' {
        if i + 5 <= s.len() && s.subrange(i, i + 5) == "false"@ {
            Some((ScalarV::Bool(false), i + 5))
        } else {
            None
        }
    } else if s[i] == 'n' {
        if i + 4 <= s.len() && s.subrange(i, i + 4) == "null"@ {
            Some((ScalarV::Null, i + 4))
        } else {
            None
        }
    } else if s[i] == '-' || ('0' <= s[i] && s[i] <= '9') {
        Some((ScalarV::Num(s.subrange(i, num_end(s, i))), num_end(s, i)))
    } else {
        None
    }
}

pub proof fn lemma_sp_scalar_bounds(s: Seq<char>, i: int)
    requires
        0 <= i <= s.len(),
    ensures
        match sp_scalar(s, i) {
            Some(r) => i < r.1 <= s.len(),
            None => true,
        },
{
    if i < s.len() {
        if s[i] == '"' {
            lemma_sp_str_body_bounds(s, i + 1, Seq::empty());
        } else if s[i] == '-' || ('0' <= s[i] && s[i] <= '9') {
            lemma_num_end(s, i);
        }
    }
}

/// The items of an array read from position `i` (just inside `[`, with at
/// least one item), appended to `acc`; the returned position is just past
/// the closing `]`.
pub open spec fn sp_arr_items(s: Seq<char>, i: int, acc: Seq<ScalarV>) -> Option<
    (Seq<ScalarV>, int),
>
    decreases s.len() - i,
    when 0 <= i <= s.len()
    via sp_arr_items_decreases
{
    let j = ws_end(s, i);
    match sp_scalar(s, j) {
        None => None,
        Some(r) => {
            let l = ws_end(s, r.1);
            if l >= s.len() {
                None
            } else if s[l] == ',' {
                sp_arr_items(s, l + 1, acc.push(r.0))
            } else if s[l] == ']' {
                Some((acc.push(r.0), l + 1))
            } else {
                None
            }
        },
    }
}

#[via_fn]
proof fn sp_arr_items_decreases(s: Seq<char>, i: int, acc: Seq<ScalarV>) {
    lemma_ws_end(s, i);
    let j = ws_end(s, i);
    lemma_sp_scalar_bounds(s, j);
    match sp_scalar(s, j) {
        None => {},
        Some(r) => {
            lemma_ws_end(s, r.1);
        },
    }
}

pub proof fn lemma_sp_arr_items_bounds(s: Seq<char>, i: int, acc: Seq<ScalarV>)
    requires
        0 <= i <= s.len(),
    ensures
        match sp_arr_items(s, i, acc) {
            Some(r) => i < r.1 <= s.len(),
            None => true,
        },
    decreases s.len() - i,
{
    lemma_ws_end(s, i);
    let j = ws_end(s, i);
    lemma_sp_scalar_bounds(s, j);
    match sp_scalar(s, j) {
        None => {},
        Some(r) => {
            lemma_ws_end(s, r.1);
            let l = ws_end(s, r.1);
            if l < s.len() && s[l] == ',' {
                lemma_sp_arr_items_bounds(s, l + 1, acc.push(r.0));
            }
        },
    }
}

/// One member value read from position `i`: a scalar, or an array.
pub open spec fn sp_value(s: Seq<char>, i: int) -> Option<(ValV, int)> {
    if 0 <= i < s.len() && s[i] == '[' {
        let j = ws_end(s, i + 1);
        if j < s.len() && s[j] == ']' {
            Some((ValV::Arr(Seq::empty()), j + 1))
        } else {
            match sp_arr_items(s, i + 1, Seq::empty()) {
                Some(r) => Some((ValV::Arr(r.0), r.1)),
                None => None,
            }
        }
    } else {
        match sp_scalar(s, i) {
            Some(r) => Some((ValV::Scalar(r.0), r.1)),
            None => None,
        }
    }
}

pub proof fn lemma_sp_value_bounds(s: Seq<char>, i: int)
    requires
        0 <= i <= s.len(),
    ensures
        match sp_value(s, i) {
            Some(r) => i < r.1 <= s.len(),
            None => true,
        },
{
    if 0 <= i < s.len() && s[i] == '[' {
        lemma_ws_end(s, i + 1);
        lemma_sp_arr_items_bounds(s, i + 1, Seq::empty());
    } else {
        lemma_sp_scalar_bounds(s, i);
    }
}

/// The members of an object read from position `i` (just inside `{`, with
/// at least one member), appended to `acc`; the returned position is just
/// past the closing `}`.
pub open spec fn sp_members(s: Seq<char>, i: int, acc: Seq<MemberV>) -> Option<
    (Seq<MemberV>, int),
>
    decreases s.len() - i,
    when 0 <= i <= s.len()
    via sp_members_decreases
{
    let j = ws_end(s, i);
    if j >= s.len() || s[j] != '"' {
        None
    } else {
        match sp_str_body(s, j + 1, Seq::empty()) {
            None => None,
            Some(k) => {
                let l = ws_end(s, k.1);
                if l >= s.len() || s[l] != ':' {
                    None
                } else {
                    match sp_value(s, ws_end(s, l + 1)) {
                        None => None,
                        Some(v) => {
                            let q = ws_end(s, v.1);
                            if q >= s.len() {
                                None
                            } else if s[q] == ',' {
                                sp_members(s, q + 1, acc.push(MemberV { key: k.0, val: v.0 }))
                            } else if s[q] == '}' {
                                Some((acc.push(MemberV { key: k.0, val: v.0 }), q + 1))
                            } else {
                                None
                            }
                        },
                    }
                }
            },
        }
    }
}

#[via_fn]
proof fn sp_members_decreases(s: Seq<char>, i: int, acc: Seq<MemberV>) {
    lemma_ws_end(s, i);
    let j = ws_end(s, i);
    if j < s.len() && s[j] == '"' {
        lemma_sp_str_body_bounds(s, j + 1, Seq::empty());
        match sp_str_body(s, j + 1, Seq::empty()) {
            None => {},
            Some(k) => {
                lemma_ws_end(s, k.1);
                let l = ws_end(s, k.1);
                if l < s.len() && s[l] == ':' {
                    lemma_ws_end(s, l + 1);
                    lemma_sp_value_bounds(s, ws_end(s, l + 1));
                    match sp_value(s, ws_end(s, l + 1)) {
                        None => {},
                        Some(v) => {
                            lemma_ws_end(s, v.1);
                        },
                    }
                }
            },
        }
    }
}

/// The members of the object `s` spells, when `s` is exactly one object.
pub open spec fn sp_obj(s: Seq<char>) -> Option<Seq<MemberV>> {
    let i = ws_end(s, 0);
    if i >= s.len() || s[i] != '{' {
        None
    } else {
        let j = ws_end(s, i + 1);
        if j < s.len() && s[j] == '}' {
            if ws_end(s, j + 1) == s.len() {
                Some(Seq::empty())
            } else {
                None
            }
        } else {
            match sp_members(s, i + 1, Seq::empty()) {
                None => None,
                Some(r) => {
                    if ws_end(s, r.1) == s.len() {
                        Some(r.0)
                    } else {
                        None
                    }
                },
            }
        }
    }
}

fn is_ws_exec(c: char) -> (r: bool)
    ensures
        r == is_ws(c),
{
    c == ' ' || c == '\t' || c == '\n' || c == '\r'
}

fn is_num_char_exec(c: char) -> (r: bool)
    ensures
        r == is_num_char(c),
{
    ('0' <= c && c <= '9') || c == '-' || c == '+' || c == '.' || c == 'e' || c == 'E'
}

fn is_hex_exec(c: char) -> (r: bool)
    ensures
        r == is_hex(c),
{
    ('0' <= c && c <= '9') || ('a' <= c && c <= 'f') || ('A' <= c && c <= 'F')
}

fn hex_val_exec(c: char) -> (r: u8)
    requires
        is_hex(c),
    ensures
        r as int == hex_val(c),
{
    if '0' <= c && c <= '9' {
        (c as u8) - 48
    } else if 'a' <= c && c <= 'f' {
        (c as u8) - 97 + 10
    } else {
        (c as u8) - 65 + 10
    }
}

/// Skips whitespace.
fn ws_skip(cs: &Vec<char>, i: usize) -> (r: usize)
    requires
        i <= cs@.len(),
    ensures
        r as int == ws_end(cs@, i as int),
        i <= r <= cs@.len(),
{
    let mut k = i;
    while k < cs.len() && is_ws_exec(cs[k])
        invariant
            i <= k <= cs@.len(),
            ws_end(cs@, i as int) == ws_end(cs@, k as int),
        decreases cs@.len() - k,
    {
        k += 1;
    }
    k
}

/// Reads a string literal from just inside its opening quote.
fn parse_str_body(cs: &Vec<char>, i: usize) -> (r: Option<(String, usize)>)
    requires
        i <= cs@.len(),
    ensures
        match r {
            Some(p) => sp_str_body(cs@, i as int, Seq::empty()) == Some((p.0@, p.1 as int)) && i
                < p.1 <= cs@.len(),
            None => sp_str_body(cs@, i as int, Seq::empty()) is None,
        },
{
    let ghost s = cs@;
    let mut acc = String::new();
    let mut k = i;
    loop
        invariant
            i <= k <= s.len(),
            s == cs@,
            sp_str_body(s, i as int, Seq::empty()) == sp_str_body(s, k as int, acc@),
        decreases s.len() - k,
    {
        if k >= cs.len() {
            return None;
        }
        let c = cs[k];
        if c == '"' {
            proof {
                lemma_sp_str_body_bounds(s, i as int, Seq::empty());
            }
            return Some((acc, k + 1));
        }
        if c == '\\' {
            if k + 1 >= cs.len() {
                return None;
            }
            let e = cs[k + 1];
            if e == '"' || e == '\\' || e == '/' {
                string_push(&mut acc, e);
                k = k + 2;
            } else if e == 'n' {
                string_push(&mut acc, '\n');
                k = k + 2;
            } else if e == 't' {
                string_push(&mut acc, '\t');
                k = k + 2;
            } else if e == 'r' {
                string_push(&mut acc, '\r');
                k = k + 2;
            } else if e == 'b' {
                string_push(&mut acc, 8u8 as char);
                k = k + 2;
            } else if e == 'f' {
                string_push(&mut acc, 12u8 as char);
                k = k + 2;
            } else if e == 'u' {
                if cs.len() - k >= 6 && cs[k + 2] == '0' && cs[k + 3] == '0' && is_hex_exec(
                    cs[k + 4],
                ) && is_hex_exec(cs[k + 5]) {
                    let v: u8 = hex_val_exec(cs[k + 4]) * 16 + hex_val_exec(cs[k + 5]);
                    string_push(&mut acc, v as char);
                    k = k + 6;
                } else {
                    return None;
                }
            } else {
                return None;
            }
        } else {
            string_push(&mut acc, c);
            k = k + 1;
        }
    }
}

/// Reads a number lexeme.
fn parse_num_lexeme(cs: &Vec<char>, i: usize) -> (r: (String, usize))
    requires
        i <= cs@.len(),
    ensures
        r.1 as int == num_end(cs@, i as int),
        i <= r.1 <= cs@.len(),
        r.0@ == cs@.subrange(i as int, r.1 as int),
{
    let mut k = i;
    let mut lex = String::new();
    while k < cs.len() && is_num_char_exec(cs[k])
        invariant
            i <= k <= cs@.len(),
            num_end(cs@, i as int) == num_end(cs@, k as int),
            lex@ == cs@.subrange(i as int, k as int),
        decreases cs@.len() - k,
    {
        string_push(&mut lex, cs[k]);
        assert(lex@ =~= cs@.subrange(i as int, k + 1));
        k += 1;
    }
    (lex, k)
}

/// Checks that the four characters of `lit` stand at `i`.
fn match_lit4(cs: &Vec<char>, i: usize, a: char, b: char, c: char, d: char) -> (r: bool)
    requires
        i <= cs@.len(),
    ensures
        r == (i + 4 <= cs@.len() && cs@.subrange(i as int, i + 4) == seq![a, b, c, d]),
{
    if cs.len() - i >= 4 && cs[i] == a && cs[i + 1] == b && cs[i + 2] == c && cs[i + 3] == d {
        assert(cs@.subrange(i as int, i + 4) =~= seq![a, b, c, d]);
        true
    } else {
        if cs.len() - i >= 4 {
            assert(cs@.subrange(i as int, i + 4) != seq![a, b, c, d]) by {
                if cs@.subrange(i as int, i + 4) == seq![a, b, c, d] {
                    assert(cs@.subrange(i as int, i + 4)[0] == a);
                    assert(cs@.subrange(i as int, i + 4)[1] == b);
                    assert(cs@.subrange(i as int, i + 4)[2] == c);
                    assert(cs@.subrange(i as int, i + 4)[3] == d);
                }
            }
        }
        false
    }
}

/// Reads one scalar.
fn parse_scalar(cs: &Vec<char>, i: usize) -> (r: Option<(JsonScalar, usize)>)
    requires
        i <= cs@.len(),
    ensures
        match r {
            Some(p) => sp_scalar(cs@, i as int) == Some((p.0@, p.1 as int)) && i < p.1
                <= cs@.len(),
            None => sp_scalar(cs@, i as int) is None,
        },
{
    let ghost s = cs@;
    if i >= cs.len() {
        return None;
    }
    let c = cs[i];
    if c == '"' {
        match parse_str_body(cs, i + 1) {
            Some(p) => Some((JsonScalar::Str(p.0), p.1)),
            None => None,
        }
    } else if c == 't' {
        proof {
            reveal_strlit("true");
            assert(seq!['t', 'r', 'u', 'e'] =~= "true"@);
        }
        if match_lit4(cs, i, 't', 'r', 'u', 'e') {
            assert(s.subrange(i as int, i + 4) == "true"@);
            Some((JsonScalar::Bool(true), i + 4))
        } else {
            assert(i + 4 <= s.len() ==> s.subrange(i as int, i + 4) != "true"@);
            None
        }
    } else if c == 'n' {
        proof {
            reveal_strlit("null");
            assert(seq!['n', 'u', 'l', 'l'] =~= "null"@);
        }
        if match_lit4(cs, i, 'n', 'u', 'l', 'l') {
            assert(s.subrange(i as int, i + 4) == "null"@);
            Some((JsonScalar::Null, i + 4))
        } else {
            assert(i + 4 <= s.len() ==> s.subrange(i as int, i + 4) != "null"@);
            None
        }
    } else if c == 'f' {
        proof {
            reveal_strlit("false");
        }
        if cs.len() - i >= 5 && cs[i + 1] == 'a' && cs[i + 2] == 'l' && cs[i + 3] == 's' && cs[i
            + 4] == 'e' {
            assert(s.subrange(i as int, i + 5) =~= "false"@);
            Some((JsonScalar::Bool(false), i + 5))
        } else {
            assert(i + 5 <= s.len() ==> s.subrange(i as int, i + 5) != "false"@) by {
                if i + 5 <= s.len() && s.subrange(i as int, i + 5) == "false"@ {
                    assert(s.subrange(i as int, i + 5)[1] == 'a');
                    assert(s.subrange(i as int, i + 5)[2] == 'l');
                    assert(s.subrange(i as int, i + 5)[3] == 's');
                    assert(s.subrange(i as int, i + 5)[4] == 'e');
                }
            }
            None
        }
    } else if c == '-' || ('0' <= c && c <= '9') {
        proof {
            lemma_num_end(s, i as int);
        }
        let p = parse_num_lexeme(cs, i);
        Some((JsonScalar::Num(p.0), p.1))
    } else {
        None
    }
}

/// Reads one member value.
fn parse_value(cs: &Vec<char>, i: usize) -> (r: Option<(JsonVal, usize)>)
    requires
        i <= cs@.len(),
    ensures
        match r {
            Some(p) => sp_value(cs@, i as int) == Some((p.0@, p.1 as int)) && i < p.1
                <= cs@.len(),
            None => sp_value(cs@, i as int) is None,
        },
{
    let ghost s = cs@;
    if i < cs.len() && cs[i] == '[' {
        let j = ws_skip(cs, i + 1);
        if j < cs.len() && cs[j] == ']' {
            let empty_items: Vec<JsonScalar> = Vec::new();
            assert(empty_items@.map_values(|x: JsonScalar| x@) =~= Seq::<ScalarV>::empty());
            let out = JsonVal::Arr(empty_items);
            return Some((out, j + 1));
        }
        // At least one item.
        let mut items: Vec<JsonScalar> = Vec::new();
        assert(items@.map_values(|x: JsonScalar| x@) =~= Seq::<ScalarV>::empty());
        let mut k = i + 1;
        loop
            invariant
                i + 1 <= k <= s.len(),
                s == cs@,
                sp_arr_items(s, i + 1, Seq::empty()) == sp_arr_items(
                    s,
                    k as int,
                    items@.map_values(|x: JsonScalar| x@),
                ),
                sp_value(s, i as int) == (match sp_arr_items(s, i + 1, Seq::empty()) {
                    Some(r) => Some::<(ValV, int)>((ValV::Arr(r.0), r.1)),
                    None => None::<(ValV, int)>,
                }),
            decreases s.len() - k,
        {
            let j2 = ws_skip(cs, k);
            let sc = match parse_scalar(cs, j2) {
                Some(p) => p,
                None => {
                    return None;
                },
            };
            let l = ws_skip(cs, sc.1);
            if l >= cs.len() {
                return None;
            }
            let ghost old_items = items@.map_values(|x: JsonScalar| x@);
            items.push(sc.0);
            assert(items@.map_values(|x: JsonScalar| x@) =~= old_items.push(sc.0@));
            if cs[l] == ',' {
                k = l + 1;
            } else if cs[l] == ']' {
                let out = JsonVal::Arr(items);
                return Some((out, l + 1));
            } else {
                return None;
            }
        }
    } else {
        match parse_scalar(cs, i) {
            Some(p) => {
                let out = JsonVal::Scalar(p.0);
                Some((out, p.1))
            },
            None => None,
        }
    }
}

/// Reads the members of an object from just inside `{`, at least one.
fn parse_members(cs: &Vec<char>, i: usize) -> (r: Option<(Vec<JsonMember>, usize)>)
    requires
        i <= cs@.len(),
    ensures
        match r {
            Some(p) => sp_members(cs@, i as int, Seq::empty()) == Some(
                (p.0@.map_values(|m: JsonMember| m@), p.1 as int),
            ) && i <= p.1 <= cs@.len(),
            None => sp_members(cs@, i as int, Seq::empty()) is None,
        },
{
    let ghost s = cs@;
    let mut acc: Vec<JsonMember> = Vec::new();
    assert(acc@.map_values(|m: JsonMember| m@) =~= Seq::<MemberV>::empty());
    let mut k = i;
    loop
        invariant
            i <= k <= s.len(),
            s == cs@,
            sp_members(s, i as int, Seq::empty()) == sp_members(
                s,
                k as int,
                acc@.map_values(|m: JsonMember| m@),
            ),
        decreases s.len() - k,
    {
        let j = ws_skip(cs, k);
        if j >= cs.len() {
            return None;
        }
        if cs[j] != '"' {
            return None;
        }
        let key = match parse_str_body(cs, j + 1) {
            Some(p) => p,
            None => {
                return None;
            },
        };
        let l = ws_skip(cs, key.1);
        if l >= cs.len() || cs[l] != ':' {
            return None;
        }
        let m0 = ws_skip(cs, l + 1);
        let v = match parse_value(cs, m0) {
            Some(p) => p,
            None => {
                return None;
            },
        };
        let q = ws_skip(cs, v.1);
        if q >= cs.len() {
            return None;
        }
        let ghost old_acc = acc@.map_values(|m: JsonMember| m@);
        acc.push(JsonMember { key: key.0, val: v.0 });
        assert(acc@.map_values(|m: JsonMember| m@) =~= old_acc.push(
            MemberV { key: key.0@, val: v.0@ },
        ));
        if cs[q] == ',' {
            k = q + 1;
        } else if cs[q] == '}' {
            return Some((acc, q + 1));
        } else {
            return None;
        }
    }
}

/// Reads one flat JSON object spelled by the whole of `text`, exactly as
/// the spec-level reader [`sp_obj`] defines it.
pub fn parse_obj_text(text: &str) -> (r: Option<JsonObj>)
    ensures
        match r {
            Some(o) => sp_obj(text@) == Some(o@),
            None => sp_obj(text@) is None,
        },
{
    let cs = str_to_chars(text);
    let ghost s = text@;
    let i = ws_skip(&cs, 0);
    if i >= cs.len() || cs[i] != '{' {
        return None;
    }
    let j = ws_skip(&cs, i + 1);
    if j < cs.len() && cs[j] == '}' {
        let k = ws_skip(&cs, j + 1);
        if k == cs.len() {
            let members: Vec<JsonMember> = Vec::new();
            let out = JsonObj { members };
            assert(out@ =~= Seq::<MemberV>::empty());
            return Some(out);
        } else {
            return None;
        }
    }
    match parse_members(&cs, i + 1) {
        Some(p) => {
            let q = ws_skip(&cs, p.1);
            if q == cs.len() {
                let out = JsonObj { members: p.0 };
                Some(out)
            } else {
                None
            }
        },
        None => None,
    }
}

/// The written form of one character inside a string literal: the common
/// short escapes; any other character stands for itself.
pub open spec fn esc_char(c: char) -> Seq<char> {
    if c == '"' {
        seq!['\\', '"']
    } else if c == '\\' {
        seq!['\\', '\\']
    } else if c == '\n' {
        seq!['\\', 'n']
    } else if c == '\t' {
        seq!['\\', 't']
    } else if c == '\r' {
        seq!['\\', 'r']
    } else if c == '\u{8}' {
        seq!['\\', 'b']
    } else if c == '\u{c}' {
        seq!['\\', 'f']
    } else {
        seq![c]
    }
}

/// The written form of the characters of a string literal.
pub open spec fn escape(x: Seq<char>) -> Seq<char>
    decreases x.len(),
{
    if x.len() == 0 {
        Seq::empty()
    } else {
        esc_char(x[0]) + escape(x.skip(1))
    }
}

/// The written form of a string literal, quotes included.
pub open spec fn str_text(x: Seq<char>) -> Seq<char> {
    seq!['"'] + escape(x) + seq!['"']
}

/// The written form of a scalar.
pub open spec fn scalar_text(v: ScalarV) -> Seq<char> {
    match v {
        ScalarV::Null => "null"@,
        ScalarV::Bool(b) => if b {
            "true"@
        } else {
            "false"@
        },
        ScalarV::Num(l) => l,
        ScalarV::Str(x) => str_text(x),
    }
}

/// The written form of the items of an array, comma separated.
pub open spec fn arr_items_text(a: Seq<ScalarV>) -> Seq<char>
    decreases a.len(),
{
    if a.len() == 0 {
        Seq::empty()
    } else if a.len() == 1 {
        scalar_text(a[0])
    } else {
        scalar_text(a[0]) + seq![','] + arr_items_text(a.skip(1))
    }
}

/// The written form of a member value.
pub open spec fn val_text(v: ValV) -> Seq<char> {
    match v {
        ValV::Scalar(x) => scalar_text(x),
        ValV::Arr(a) => seq!['['] + arr_items_text(a) + seq![']'],
    }
}

/// The written form of one member.
pub open spec fn member_text(m: MemberV) -> Seq<char> {
    str_text(m.key) + seq![':'] + val_text(m.val)
}

/// The written form of the members of an object, comma separated.
pub open spec fn members_text(ms: Seq<MemberV>) -> Seq<char>
    decreases ms.len(),
{
    if ms.len() == 0 {
        Seq::empty()
    } else if ms.len() == 1 {
        member_text(ms[0])
    } else {
        member_text(ms[0]) + seq![','] + members_text(ms.skip(1))
    }
}

/// The written form of a whole object.
pub open spec fn obj_text(ms: Seq<MemberV>) -> Seq<char> {
    seq!['{'] + members_text(ms) + seq!['}']
}

/// Appending one character to a string extends its written form by that
/// character's escape.
pub proof fn lemma_escape_push(a: Seq<char>, c: char)
    ensures
        escape(a.push(c)) == escape(a) + esc_char(c),
    decreases a.len(),
{
    if a.len() == 0 {
        assert(a.push(c)[0] == c);
        assert(a.push(c).skip(1) =~= Seq::<char>::empty());
        assert(escape(Seq::<char>::empty()) == Seq::<char>::empty());
        assert(escape(a.push(c)) == esc_char(c) + escape(a.push(c).skip(1)));
        assert(escape(a.push(c)) =~= esc_char(c));
        assert(escape(a) + esc_char(c) =~= esc_char(c));
    } else {
        assert(a.push(c)[0] == a[0]);
        assert(a.push(c).skip(1) =~= a.skip(1).push(c));
        lemma_escape_push(a.skip(1), c);
        assert(escape(a.push(c)) == esc_char(a[0]) + (escape(a.skip(1)) + esc_char(c)));
        assert(esc_char(a[0]) + (escape(a.skip(1)) + esc_char(c)) =~= (esc_char(a[0]) + escape(
            a.skip(1),
        )) + esc_char(c));
    }
}

/// Appending one item extends an array's written items by a comma and that
/// item's text.
pub proof fn lemma_arr_items_text_push(a: Seq<ScalarV>, x: ScalarV)
    ensures
        arr_items_text(a.push(x)) == if a.len() == 0 {
            scalar_text(x)
        } else {
            arr_items_text(a) + seq![','] + arr_items_text(seq![x])
        },
    decreases a.len(),
{
    if a.len() == 0 {
        assert(a.push(x) =~= seq![x]);
        assert(arr_items_text(seq![x]) == scalar_text(x));
    } else {
        assert(a.push(x)[0] == a[0]);
        assert(a.push(x).skip(1) =~= a.skip(1).push(x));
        lemma_arr_items_text_push(a.skip(1), x);
        if a.len() == 1 {
            assert(a.skip(1).len() == 0);
            assert(arr_items_text(a.push(x)) == scalar_text(a[0]) + seq![','] + arr_items_text(
                a.skip(1).push(x),
            ));
            assert(arr_items_text(a) == scalar_text(a[0]));
        } else {
            assert(arr_items_text(a.push(x)) == scalar_text(a[0]) + seq![','] + (arr_items_text(
                a.skip(1),
            ) + seq![','] + arr_items_text(seq![x])));
            assert(scalar_text(a[0]) + seq![','] + (arr_items_text(a.skip(1)) + seq![',']
                + arr_items_text(seq![x])) =~= (scalar_text(a[0]) + seq![','] + arr_items_text(
                a.skip(1),
            )) + seq![','] + arr_items_text(seq![x]));
        }
    }
}

/// Appending one member extends an object's written members by a comma and
/// that member's text.
pub proof fn lemma_members_text_push(ms: Seq<MemberV>, m: MemberV)
    ensures
        members_text(ms.push(m)) == if ms.len() == 0 {
            member_text(m)
        } else {
            members_text(ms) + seq![','] + members_text(seq![m])
        },
    decreases ms.len(),
{
    if ms.len() == 0 {
        assert(ms.push(m) =~= seq![m]);
        assert(members_text(seq![m]) == member_text(m));
    } else {
        assert(ms.push(m)[0] == ms[0]);
        assert(ms.push(m).skip(1) =~= ms.skip(1).push(m));
        lemma_members_text_push(ms.skip(1), m);
        if ms.len() == 1 {
            assert(ms.skip(1).len() == 0);
            assert(members_text(ms.push(m)) == member_text(ms[0]) + seq![','] + members_text(
                ms.skip(1).push(m),
            ));
            assert(members_text(ms) == member_text(ms[0]));
        } else {
            assert(members_text(ms.push(m)) == member_text(ms[0]) + seq![','] + (members_text(
                ms.skip(1),
            ) + seq![','] + members_text(seq![m])));
            assert(member_text(ms[0]) + seq![','] + (members_text(ms.skip(1)) + seq![',']
                + members_text(seq![m])) =~= (member_text(ms[0]) + seq![','] + members_text(
                ms.skip(1),
            )) + seq![','] + members_text(seq![m]));
        }
    }
}

/// Appends the escaped form of `x` to `out`.
fn write_escaped(out: &mut String, x: &str)
    ensures
        final(out)@ == old(out)@ + escape(x@),
{
    let n = x.unicode_len();
    let mut i: usize = 0;
    while i < n
        invariant
            n == x@.len(),
            i <= n,
            out@ == old(out)@ + escape(x@.take(i as int)),
        decreases n - i,
    {
        let c = x.get_char(i);
        if c == '"' {
            string_push(out, '\\');
            string_push(out, '"');
        } else if c == '\\' {
            string_push(out, '\\');
            string_push(out, '\\');
        } else if c == '\n' {
            string_push(out, '\\');
            string_push(out, 'n');
        } else if c == '\t' {
            string_push(out, '\\');
            string_push(out, 't');
        } else if c == '\r' {
            string_push(out, '\\');
            string_push(out, 'r');
        } else if c == '\u{8}' {
            string_push(out, '\\');
            string_push(out, 'b');
        } else if c == '\u{c}' {
            string_push(out, '\\');
            string_push(out, 'f');
        } else {
            string_push(out, c);
        }
        proof {
            lemma_escape_push(x@.take(i as int), c);
            assert(x@.take(i + 1) =~= x@.take(i as int).push(c));
            assert(out@ =~= old(out)@ + escape(x@.take(i + 1)));
        }
        i += 1;
    }
    assert(x@.take(n as int) =~= x@);
}

/// Appends the written form of a string literal to `out`.
fn write_str_lit(out: &mut String, x: &str)
    ensures
        final(out)@ == old(out)@ + str_text(x@),
{
    string_push(out, '"');
    write_escaped(out, x);
    string_push(out, '"');
    assert(out@ =~= old(out)@ + str_text(x@));
}

/// Appends the written form of a scalar to `out`.
fn write_scalar(out: &mut String, v: &JsonScalar)
    ensures
        final(out)@ == old(out)@ + scalar_text(v@),
{
    match v {
        JsonScalar::Null => {
            out.append("null");
        },
        JsonScalar::Bool(b) => {
            if *b {
                out.append("true");
            } else {
                out.append("false");
            }
        },
        JsonScalar::Num(l) => {
            out.append(l.as_str());
        },
        JsonScalar::Str(x) => {
            write_str_lit(out, x.as_str());
        },
    }
}

/// Appends the written form of a member value to `out`.
fn write_val(out: &mut String, v: &JsonVal)
    ensures
        final(out)@ == old(out)@ + val_text(v@),
{
    match v {
        JsonVal::Scalar(x) => {
            write_scalar(out, x);
        },
        JsonVal::Arr(items) => {
            string_push(out, '[');
            let ghost a = items@.map_values(|x: JsonScalar| x@);
            let mut i: usize = 0;
            while i < items.len()
                invariant
                    i <= items@.len(),
                    a == items@.map_values(|x: JsonScalar| x@),
                    out@ == old(out)@ + seq!['['] + arr_items_text(a.take(i as int)),
                decreases items@.len() - i,
            {
                if i > 0 {
                    string_push(out, ',');
                    write_scalar(out, &items[i]);
                    proof {
                        lemma_arr_items_text_push(a.take(i as int), a[i as int]);
                        assert(a.take(i + 1) =~= a.take(i as int).push(a[i as int]));
                        assert(arr_items_text(seq![a[i as int]]) == scalar_text(a[i as int]));
                        assert(out@ =~= old(out)@ + seq!['['] + arr_items_text(a.take(i + 1)));
                    }
                } else {
                    write_scalar(out, &items[i]);
                    proof {
                        lemma_arr_items_text_push(a.take(i as int), a[i as int]);
                        assert(a.take(i + 1) =~= a.take(i as int).push(a[i as int]));
                        assert(out@ =~= old(out)@ + seq!['['] + arr_items_text(a.take(i + 1)));
                    }
                }
                i += 1;
            }
            string_push(out, ']');
            proof {
                assert(a.take(a.len() as int) =~= a);
                assert(out@ =~= old(out)@ + val_text(ValV::Arr(a)));
            }
        },
    }
}

/// Renders a whole object, exactly as [`obj_text`] spells it.
pub fn obj_to_text(o: &JsonObj) -> (r: String)
    ensures
        r@ == obj_text(o@),
{
    let mut out = String::new();
    string_push(&mut out, '{');
    let ghost ms = o@;
    let mut i: usize = 0;
    while i < o.members.len()
        invariant
            i <= o.members@.len(),
            ms == o.members@.map_values(|m: JsonMember| m@),
            out@ == seq!['{'] + members_text(ms.take(i as int)),
        decreases o.members@.len() - i,
    {
        if i > 0 {
            string_push(&mut out, ',');
        }
        write_str_lit(&mut out, o.members[i].key.as_str());
        string_push(&mut out, ':');
        write_val(&mut out, &o.members[i].val);
        proof {
            lemma_members_text_push(ms.take(i as int), ms[i as int]);
            assert(ms.take(i + 1) =~= ms.take(i as int).push(ms[i as int]));
            assert(ms[i as int] == o.members@[i as int]@);
            assert(members_text(seq![ms[i as int]]) == member_text(ms[i as int]));
            assert(member_text(ms[i as int]) == str_text(o.members@[i as int].key@) + seq![':']
                + val_text(o.members@[i as int].val@));
            assert(out@ =~= seq!['{'] + members_text(ms.take(i + 1)));
        }
        i += 1;
    }
    string_push(&mut out, '}');
    proof {
        assert(ms.take(ms.len() as int) =~= ms);
        assert(out@ =~= obj_text(ms));
    }
    out
}

} // verus!
