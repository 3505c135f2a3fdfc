//! Decoder for the superseded flat-file task list: a textual array of
//! task objects, each a set of `"key": value` pairs whose values are
//! strings, unsigned integers and booleans.  The oldest files lack the
//! `id` and `completed_at` fields, so both are optional here; absent
//! files and blank files count as zero records, anything undecodable is
//! corrupt.

use vstd::prelude::*;

verus! {

use crate::task::MAX_TIMESTAMP;
use crate::text::{chars_of, string_from_chars};

/// The legacy file is present but cannot be decoded.  Fatal to the
/// migration, never to the process; the file is left untouched.
#[derive(Debug)]
pub struct CorruptLegacyData;

/// One record of the legacy file.  `created_at_date` is not kept: it is
/// a cached projection of `created_at` and is recomputed on import.
pub struct LegacyTask {
    pub id: Option<String>,
    pub description: String,
    pub completed: bool,
    pub created_at: u64,
    pub completed_at: Option<u64>,
}

/// The mathematical value of a legacy record.
pub ghost struct LegacyView {
    pub id: Option<Seq<char>>,
    pub description: Seq<char>,
    pub completed: bool,
    pub created_at: u64,
    pub completed_at: Option<u64>,
}

pub open spec fn opt_str_view(o: Option<String>) -> Option<Seq<char>> {
    match o {
        Some(s) => Some(s@),
        None => None,
    }
}

impl Clone for LegacyTask {
    fn clone(&self) -> (r: LegacyTask)
        ensures
            r == *self,
    {
        LegacyTask {
            id: match &self.id {
                Some(s) => Some(s.clone()),
                None => None,
            },
            description: self.description.clone(),
            completed: self.completed,
            created_at: self.created_at,
            completed_at: self.completed_at,
        }
    }
}

impl View for LegacyTask {
    type V = LegacyView;

    open spec fn view(&self) -> LegacyView {
        LegacyView {
            id: opt_str_view(self.id),
            description: self.description@,
            completed: self.completed,
            created_at: self.created_at,
            completed_at: self.completed_at,
        }
    }
}

// ---------------------------------------------------------------------
// The grammar, as specification functions.  Each takes the whole text
// and a position and yields the parsed value with the position after
// it, or nothing when the text does not match.
// ---------------------------------------------------------------------

pub open spec fn is_ws(c: char) -> bool {
    c == ' ' || c == '\t' || c == '\n' || c == '\r'
}

pub open spec fn is_digit(c: char) -> bool {
    '0' as u32 <= c as u32 && c as u32 <= '9' as u32
}

pub open spec fn digit_val(c: char) -> int {
    c as u32 - '0' as u32
}

/// The first position at or after `i` holding no whitespace.
pub open spec fn spec_skip_ws(s: Seq<char>, i: int) -> int
    decreases s.len() - i,
{
    if 0 <= i < s.len() && is_ws(s[i]) {
        spec_skip_ws(s, i + 1)
    } else {
        i
    }
}

/// Digits accumulated onto `acc`; more digits than a `u64` holds is a
/// decode failure, not a silent truncation.
pub open spec fn spec_number_rest(s: Seq<char>, i: int, acc: u64) -> Option<(u64, int)>
    decreases s.len() - i,
{
    if 0 <= i < s.len() && is_digit(s[i]) {
        if 10 * acc + digit_val(s[i]) <= u64::MAX {
            spec_number_rest(s, i + 1, (10 * acc + digit_val(s[i])) as u64)
        } else {
            None
        }
    } else {
        Some((acc, i))
    }
}

/// An unsigned integer: one digit or more.
pub open spec fn spec_parse_number(s: Seq<char>, i: int) -> Option<(u64, int)> {
    if 0 <= i < s.len() && is_digit(s[i]) {
        spec_number_rest(s, i, 0)
    } else {
        None
    }
}

/// What a backslash escape of one letter stands for.
pub open spec fn unescape_simple(c: char) -> Option<char> {
    if c == '"' {
        Some('"')
    } else if c == '\\' {
        Some('\\')
    } else if c == '/' {
        Some('/')
    } else if c == 'b' {
        Some('\u{0008}')
    } else if c == 'f' {
        Some('\u{000C}')
    } else if c == 'n' {
        Some('\n')
    } else if c == 'r' {
        Some('\r')
    } else if c == 't' {
        Some('\t')
    } else {
        None
    }
}

pub open spec fn hex_val(c: char) -> Option<int> {
    if '0' as u32 <= c as u32 && c as u32 <= '9' as u32 {
        Some(c as u32 - '0' as u32)
    } else if 'a' as u32 <= c as u32 && c as u32 <= 'f' as u32 {
        Some(c as u32 - 'a' as u32 + 10)
    } else if 'A' as u32 <= c as u32 && c as u32 <= 'F' as u32 {
        Some(c as u32 - 'A' as u32 + 10)
    } else {
        None
    }
}

/// Four hex digits at `i`, as one value.
pub open spec fn spec_hex4(s: Seq<char>, i: int) -> Option<int> {
    if 0 <= i && i + 3 < s.len() {
        match (hex_val(s[i]), hex_val(s[i + 1]), hex_val(s[i + 2]), hex_val(s[i + 3])) {
            (Some(a), Some(b), Some(c), Some(d)) => Some(4096 * a + 256 * b + 16 * c + d),
            _ => None,
        }
    } else {
        None
    }
}

/// The contents of a quoted string, from just after the opening quote
/// to just after the closing one.  Escapes are decoded; a four-digit
/// escape must not name a surrogate; raw control characters do not
/// belong in a string.
pub open spec fn spec_string_body(s: Seq<char>, i: int) -> Option<(Seq<char>, int)>
    decreases s.len() - i,
{
    if !(0 <= i < s.len()) {
        None
    } else if s[i] == '"' {
        Some((Seq::empty(), i + 1))
    } else if s[i] == '\\' {
        if !(i + 1 < s.len()) {
            None
        } else if s[i + 1] == 'u' {
            match spec_hex4(s, i + 2) {
                Some(code) => if 0xD800 <= code && code < 0xE000 {
                    None
                } else {
                    match spec_string_body(s, i + 6) {
                        Some((rest, j)) => Some((seq![(code as u32) as char] + rest, j)),
                        None => None,
                    }
                },
                None => None,
            }
        } else {
            match unescape_simple(s[i + 1]) {
                Some(c) => match spec_string_body(s, i + 2) {
                    Some((rest, j)) => Some((seq![c] + rest, j)),
                    None => None,
                },
                None => None,
            }
        }
    } else if (s[i] as u32) < 0x20 {
        None
    } else {
        match spec_string_body(s, i + 1) {
            Some((rest, j)) => Some((seq![s[i]] + rest, j)),
            None => None,
        }
    }
}

/// A whole quoted string at `i`.
pub open spec fn spec_parse_jstring(s: Seq<char>, i: int) -> Option<(Seq<char>, int)> {
    if 0 <= i < s.len() && s[i] == '"' {
        spec_string_body(s, i + 1)
    } else {
        None
    }
}

/// A `true` or `false` literal at `i`.
pub open spec fn spec_parse_bool(s: Seq<char>, i: int) -> Option<(bool, int)> {
    if 0 <= i && i + 3 < s.len() && s[i] == 't' && s[i + 1] == 'r' && s[i + 2] == 'u' && s[i + 3]
        == 'e' {
        Some((true, i + 4))
    } else if 0 <= i && i + 4 < s.len() && s[i] == 'f' && s[i + 1] == 'a' && s[i + 2] == 'l' && s[i
        + 3] == 's' && s[i + 4] == 'e' {
        Some((false, i + 5))
    } else {
        None
    }
}

/// The fields gathered while reading one object.
pub ghost struct PartialView {
    pub id: Option<Seq<char>>,
    pub description: Option<Seq<char>>,
    pub completed: Option<bool>,
    pub created_at: Option<u64>,
    pub date_seen: bool,
    pub completed_at: Option<u64>,
}

pub open spec fn empty_partial() -> PartialView {
    PartialView {
        id: None,
        description: None,
        completed: None,
        created_at: None,
        date_seen: false,
        completed_at: None,
    }
}

/// One `"key": value` pair applied to the gathered fields.  A key seen
/// twice, an unknown key, or a value of the wrong shape is a decode
/// failure.  The `created_at_date` value is read and discarded: it is
/// recomputed on import.
pub open spec fn spec_parse_field(s: Seq<char>, i: int, m: PartialView, key: Seq<char>) -> Option<
    (PartialView, int),
> {
    if key == "id"@ {
        match spec_parse_jstring(s, i) {
            Some((v, j)) => if m.id is None {
                Some((PartialView { id: Some(v), ..m }, j))
            } else {
                None
            },
            None => None,
        }
    } else if key == "description"@ {
        match spec_parse_jstring(s, i) {
            Some((v, j)) => if m.description is None {
                Some((PartialView { description: Some(v), ..m }, j))
            } else {
                None
            },
            None => None,
        }
    } else if key == "completed"@ {
        match spec_parse_bool(s, i) {
            Some((v, j)) => if m.completed is None {
                Some((PartialView { completed: Some(v), ..m }, j))
            } else {
                None
            },
            None => None,
        }
    } else if key == "created_at"@ {
        match spec_parse_number(s, i) {
            Some((v, j)) => if m.created_at is None {
                Some((PartialView { created_at: Some(v), ..m }, j))
            } else {
                None
            },
            None => None,
        }
    } else if key == "created_at_date"@ {
        match spec_parse_jstring(s, i) {
            Some((v, j)) => if !m.date_seen {
                Some((PartialView { date_seen: true, ..m }, j))
            } else {
                None
            },
            None => None,
        }
    } else if key == "completed_at"@ {
        match spec_parse_number(s, i) {
            Some((v, j)) => if m.completed_at is None {
                Some((PartialView { completed_at: Some(v), ..m }, j))
            } else {
                None
            },
            None => None,
        }
    } else {
        None
    }
}

// ---------------------------------------------------------------------
// Positions only move forward: facts the recursion below rests on.
// ---------------------------------------------------------------------

pub proof fn lemma_skip_ws_bounds(s: Seq<char>, i: int)
    requires
        0 <= i,
    ensures
        i <= spec_skip_ws(s, i),
        i <= s.len() ==> spec_skip_ws(s, i) <= s.len(),
        i > s.len() ==> spec_skip_ws(s, i) == i,
    decreases s.len() - i,
{
    if 0 <= i < s.len() && is_ws(s[i]) {
        lemma_skip_ws_bounds(s, i + 1);
    }
}

pub proof fn lemma_number_bounds(s: Seq<char>, i: int)
    ensures
        spec_parse_number(s, i) matches Some((v, j)) ==> i < j <= s.len(),
{
    if 0 <= i < s.len() && is_digit(s[i]) {
        lemma_number_rest_strict(s, i, 0);
    }
}

proof fn lemma_number_rest_strict(s: Seq<char>, i: int, acc: u64)
    requires
        0 <= i < s.len(),
        is_digit(s[i]),
    ensures
        spec_number_rest(s, i, acc) matches Some((v, j)) ==> i < j <= s.len(),
    decreases s.len() - i,
{
    if 10 * acc + digit_val(s[i]) <= u64::MAX {
        let acc2 = (10 * acc + digit_val(s[i])) as u64;
        if i + 1 < s.len() && is_digit(s[i + 1]) {
            lemma_number_rest_strict(s, i + 1, acc2);
        }
    }
}

pub proof fn lemma_string_body_bounds(s: Seq<char>, i: int)
    ensures
        spec_string_body(s, i) matches Some((cs, j)) ==> i < j <= s.len(),
    decreases s.len() - i,
{
    if 0 <= i < s.len() {
        if s[i] == '"' {
        } else if s[i] == '\\' {
            if i + 1 < s.len() {
                if s[i + 1] == 'u' {
                    if spec_hex4(s, i + 2) is Some {
                        lemma_string_body_bounds(s, i + 6);
                    }
                } else {
                    lemma_string_body_bounds(s, i + 2);
                }
            }
        } else {
            lemma_string_body_bounds(s, i + 1);
        }
    }
}

pub proof fn lemma_field_bounds(s: Seq<char>, i: int, m: PartialView, key: Seq<char>)
    ensures
        spec_parse_field(s, i, m, key) matches Some((m2, j)) ==> i < j <= s.len(),
{
    lemma_string_body_bounds(s, i + 1);
    lemma_number_bounds(s, i);
}

// ---------------------------------------------------------------------
// Objects and the array around them.
// ---------------------------------------------------------------------

/// The pairs of one object, from the first key to just after the
/// closing brace, applied onto the fields gathered so far.
pub open spec fn spec_parse_members(s: Seq<char>, i: int, m: PartialView) -> Option<
    (PartialView, int),
>
    decreases s.len() - i,
    via spec_parse_members_decreases
{
    if !(0 <= i < s.len() && s[i] == '"') {
        None
    } else {
        match spec_string_body(s, i + 1) {
            None => None,
            Some((key, j)) => {
                let j1: int = spec_skip_ws(s, j);
                if !(j1 < s.len() && s[j1] == ':') {
                    None
                } else {
                    let j2: int = spec_skip_ws(s, j1 + 1);
                    match spec_parse_field(s, j2, m, key) {
                        None => None,
                        Some((m2, j3)) => {
                            let j4: int = spec_skip_ws(s, j3);
                            if !(j4 < s.len()) {
                                None
                            } else if s[j4] == ',' {
                                let j5: int = spec_skip_ws(s, j4 + 1);
                                spec_parse_members(s, j5, m2)
                            } else if s[j4] == '}' {
                                Some((m2, j4 + 1))
                            } else {
                                None
                            }
                        },
                    }
                }
            },
        }
    }
}

#[via_fn]
proof fn spec_parse_members_decreases(s: Seq<char>, i: int, m: PartialView) {
    lemma_string_body_bounds(s, i + 1);
    if let Some((key, j)) = spec_string_body(s, i + 1) {
        lemma_skip_ws_bounds(s, j);
        let j1 = spec_skip_ws(s, j);
        lemma_skip_ws_bounds(s, j1 + 1);
        let j2 = spec_skip_ws(s, j1 + 1);
        lemma_field_bounds(s, j2, m, key);
        if let Some((m2, j3)) = spec_parse_field(s, j2, m, key) {
            lemma_skip_ws_bounds(s, j3);
            let j4 = spec_skip_ws(s, j3);
            lemma_skip_ws_bounds(s, j4 + 1);
        }
    }
}

pub proof fn lemma_members_bounds(s: Seq<char>, i: int, m: PartialView)
    ensures
        spec_parse_members(s, i, m) matches Some((m2, k)) ==> i < k <= s.len(),
    decreases s.len() - i,
{
    if 0 <= i < s.len() && s[i] == '"' {
        lemma_string_body_bounds(s, i + 1);
        if let Some((key, j)) = spec_string_body(s, i + 1) {
            lemma_skip_ws_bounds(s, j);
            let j1 = spec_skip_ws(s, j);
            if j1 < s.len() && s[j1] == ':' {
                lemma_skip_ws_bounds(s, j1 + 1);
                let j2 = spec_skip_ws(s, j1 + 1);
                lemma_field_bounds(s, j2, m, key);
                if let Some((m2, j3)) = spec_parse_field(s, j2, m, key) {
                    lemma_skip_ws_bounds(s, j3);
                    let j4 = spec_skip_ws(s, j3);
                    if j4 < s.len() && s[j4] == ',' {
                        lemma_skip_ws_bounds(s, j4 + 1);
                        lemma_members_bounds(s, spec_skip_ws(s, j4 + 1), m2);
                    }
                }
            }
        }
    }
}

/// A gathered object must hold a description, a completion flag and a
/// creation time whose calendar date exists; the optional fields stay
/// optional.
pub open spec fn spec_finish_record(m: PartialView) -> Option<LegacyView> {
    match (m.description, m.completed, m.created_at) {
        (Some(d), Some(c), Some(t)) => if t <= MAX_TIMESTAMP {
            Some(
                LegacyView {
                    id: m.id,
                    description: d,
                    completed: c,
                    created_at: t,
                    completed_at: m.completed_at,
                },
            )
        } else {
            None
        },
        _ => None,
    }
}

/// One task object, braces included.
pub open spec fn spec_parse_object(s: Seq<char>, i: int) -> Option<(LegacyView, int)> {
    if 0 <= i < s.len() && s[i] == '{' {
        let j: int = spec_skip_ws(s, i + 1);
        match spec_parse_members(s, j, empty_partial()) {
            Some((m, k)) => match spec_finish_record(m) {
                Some(rec) => Some((rec, k)),
                None => None,
            },
            None => None,
        }
    } else {
        None
    }
}

pub proof fn lemma_object_bounds(s: Seq<char>, i: int)
    ensures
        spec_parse_object(s, i) matches Some((rec, j)) ==> i < j <= s.len(),
{
    if 0 <= i < s.len() && s[i] == '{' {
        lemma_skip_ws_bounds(s, i + 1);
        lemma_members_bounds(s, spec_skip_ws(s, i + 1), empty_partial());
    }
}

/// The objects of the array, from the first object to just after the
/// closing bracket.
pub open spec fn spec_parse_elements(s: Seq<char>, i: int, acc: Seq<LegacyView>) -> Option<
    (Seq<LegacyView>, int),
>
    decreases s.len() - i,
    via spec_parse_elements_decreases
{
    match spec_parse_object(s, i) {
        None => None,
        Some((rec, j)) => {
            let j1: int = spec_skip_ws(s, j);
            if !(j1 < s.len()) {
                None
            } else if s[j1] == ',' {
                let j2: int = spec_skip_ws(s, j1 + 1);
                spec_parse_elements(s, j2, acc.push(rec))
            } else if s[j1] == ']' {
                Some((acc.push(rec), j1 + 1))
            } else {
                None
            }
        },
    }
}

#[via_fn]
proof fn spec_parse_elements_decreases(s: Seq<char>, i: int, acc: Seq<LegacyView>) {
    lemma_object_bounds(s, i);
    if let Some((rec, j)) = spec_parse_object(s, i) {
        lemma_skip_ws_bounds(s, j);
        let j1 = spec_skip_ws(s, j);
        lemma_skip_ws_bounds(s, j1 + 1);
    }
}


// ---------------------------------------------------------------------
// The executable decoder, each function proved to return exactly what
// the grammar above says.
// ---------------------------------------------------------------------

/// Relies on `char::from_u32`: `Some` exactly for Unicode scalar
/// values, and then the character with that value.
pub assume_specification[ char::from_u32 ](v: u32) -> (r: Option<char>)
    ensures
        r matches Some(c) ==> c == v as char,
        r is Some <==> (v < 0xD800 || (0xE000 <= v && v < 0x110000)),
;

fn is_ws_exec(c: char) -> (r: bool)
    ensures
        r == is_ws(c),
{
    c == ' ' || c == '\t' || c == '\n' || c == '\r'
}

fn is_digit_exec(c: char) -> (r: bool)
    ensures
        r == is_digit(c),
{
    let u = c as u32;
    '0' as u32 <= u && u <= '9' as u32
}

fn hex_val_exec(c: char) -> (r: Option<u32>)
    ensures
        r matches Some(v) ==> hex_val(c) == Some(v as int) && v < 16,
        r is None ==> hex_val(c) is None,
{
    let u = c as u32;
    if '0' as u32 <= u && u <= '9' as u32 {
        Some(u - '0' as u32)
    } else if 'a' as u32 <= u && u <= 'f' as u32 {
        Some(u - 'a' as u32 + 10)
    } else if 'A' as u32 <= u && u <= 'F' as u32 {
        Some(u - 'A' as u32 + 10)
    } else {
        None
    }
}

fn unescape_simple_exec(c: char) -> (r: Option<char>)
    ensures
        r == unescape_simple(c),
{
    if c == '"' {
        Some('"')
    } else if c == '\\' {
        Some('\\')
    } else if c == '/' {
        Some('/')
    } else if c == 'b' {
        Some('\u{0008}')
    } else if c == 'f' {
        Some('\u{000C}')
    } else if c == 'n' {
        Some('\n')
    } else if c == 'r' {
        Some('\r')
    } else if c == 't' {
        Some('\t')
    } else {
        None
    }
}

fn skip_ws(s: &Vec<char>, i: usize) -> (r: usize)
    requires
        i <= s@.len(),
    ensures
        r as int == spec_skip_ws(s@, i as int),
        i <= r <= s@.len(),
{
    let mut j: usize = i;
    while j < s.len() && is_ws_exec(s[j])
        invariant
            i <= j <= s@.len(),
            spec_skip_ws(s@, j as int) == spec_skip_ws(s@, i as int),
        decreases s@.len() - j,
    {
        j = j + 1;
    }
    j
}

fn parse_number(s: &Vec<char>, i: usize) -> (r: Option<(u64, usize)>)
    requires
        i <= s@.len(),
    ensures
        r matches Some((v, j)) ==> spec_parse_number(s@, i as int) == Some((v, j as int)) && i < j
            <= s@.len(),
        r is None ==> spec_parse_number(s@, i as int) is None,
{
    if !(i < s.len() && is_digit_exec(s[i])) {
        return None;
    }
    let mut acc: u64 = 0;
    let mut j: usize = i;
    while j < s.len() && is_digit_exec(s[j])
        invariant
            i <= j <= s@.len(),
            i < s@.len() && is_digit(s@[i as int]),
            spec_number_rest(s@, j as int, acc) == spec_number_rest(s@, i as int, 0),
            j == i ==> acc == 0,
        decreases s@.len() - j,
    {
        let d = (s[j] as u32 - '0' as u32) as u64;
        let next = match acc.checked_mul(10) {
            Some(p) => match p.checked_add(d) {
                Some(n) => n,
                None => {
                    return None;
                },
            },
            None => {
                return None;
            },
        };
        acc = next;
        j = j + 1;
    }
    Some((acc, j))
}

fn parse_bool(s: &Vec<char>, i: usize) -> (r: Option<(bool, usize)>)
    requires
        i <= s@.len(),
    ensures
        r matches Some((v, j)) ==> spec_parse_bool(s@, i as int) == Some((v, j as int)) && i < j
            <= s@.len(),
        r is None ==> spec_parse_bool(s@, i as int) is None,
{
    if s.len() - i > 3 && s[i] == 't' && s[i + 1] == 'r' && s[i + 2] == 'u' && s[i + 3] == 'e' {
        Some((true, i + 4))
    } else if s.len() - i > 4 && s[i] == 'f' && s[i + 1] == 'a' && s[i + 2] == 'l' && s[i + 3]
        == 's' && s[i + 4] == 'e' {
        Some((false, i + 5))
    } else {
        None
    }
}

/// `o` with the characters of `p` put before its parsed characters.
pub open spec fn with_prefix(p: Seq<char>, o: Option<(Seq<char>, int)>) -> Option<
    (Seq<char>, int),
> {
    match o {
        Some((rest, j)) => Some((p + rest, j)),
        None => None,
    }
}

proof fn lemma_with_prefix_assoc(a: Seq<char>, b: Seq<char>, o: Option<(Seq<char>, int)>)
    ensures
        with_prefix(a, with_prefix(b, o)) == with_prefix(a + b, o),
{
    match o {
        Some((rest, j)) => {
            assert(a + (b + rest) =~= (a + b) + rest);
        },
        None => {},
    }
}

fn parse_string_body(s: &Vec<char>, i: usize) -> (r: Option<(Vec<char>, usize)>)
    requires
        i <= s@.len(),
    ensures
        r matches Some((cs, j)) ==> spec_string_body(s@, i as int) == Some((cs@, j as int)) && i
            < j <= s@.len(),
        r is None ==> spec_string_body(s@, i as int) is None,
{
    let mut acc: Vec<char> = Vec::new();
    let mut j: usize = i;
    loop
        invariant
            i <= j <= s@.len(),
            with_prefix(acc@, spec_string_body(s@, j as int)) == spec_string_body(s@, i as int),
        decreases s@.len() - j,
    {
        if j == s.len() {
            return None;
        }
        let c = s[j];
        if c == '"' {
            proof {
                assert(acc@ + Seq::<char>::empty() =~= acc@);
            }
            return Some((acc, j + 1));
        } else if c == '\\' {
            if s.len() - j < 2 {
                return None;
            }
            let e = s[j + 1];
            if e == 'u' {
                if s.len() - j < 6 {
                    return None;
                }
                let code: u32 = match (
                    hex_val_exec(s[j + 2]),
                    hex_val_exec(s[j + 3]),
                    hex_val_exec(s[j + 4]),
                    hex_val_exec(s[j + 5]),
                ) {
                    (Some(a), Some(b), Some(c2), Some(d)) => 4096 * a + 256 * b + 16 * c2 + d,
                    _ => {
                        return None;
                    },
                };
                proof {
                    assert(spec_hex4(s@, j + 2) == Some(code as int));
                }
                if 0xD800 <= code && code < 0xE000 {
                    return None;
                }
                let ch = match char::from_u32(code) {
                    Some(ch) => ch,
                    None => {
                        return None;
                    },
                };
                proof {
                    assert(spec_string_body(s@, j as int) == with_prefix(
                        seq![ch],
                        spec_string_body(s@, j + 6),
                    ));
                    lemma_with_prefix_assoc(acc@, seq![ch], spec_string_body(s@, j + 6));
                    assert(acc@ + seq![ch] =~= acc@.push(ch));
                }
                acc.push(ch);
                j = j + 6;
            } else {
                let ch = match unescape_simple_exec(e) {
                    Some(ch) => ch,
                    None => {
                        return None;
                    },
                };
                proof {
                    assert(spec_string_body(s@, j as int) == with_prefix(
                        seq![ch],
                        spec_string_body(s@, j + 2),
                    ));
                    lemma_with_prefix_assoc(acc@, seq![ch], spec_string_body(s@, j + 2));
                    assert(acc@ + seq![ch] =~= acc@.push(ch));
                }
                acc.push(ch);
                j = j + 2;
            }
        } else if (c as u32) < 0x20 {
            return None;
        } else {
            proof {
                assert(spec_string_body(s@, j as int) == with_prefix(
                    seq![c],
                    spec_string_body(s@, j + 1),
                ));
                lemma_with_prefix_assoc(acc@, seq![c], spec_string_body(s@, j + 1));
                assert(acc@ + seq![c] =~= acc@.push(c));
            }
            acc.push(c);
            j = j + 1;
        }
    }
}

/// The fields gathered while reading one object, as carried by the
/// decoder.
struct PartialLegacy {
    id: Option<String>,
    description: Option<String>,
    completed: Option<bool>,
    created_at: Option<u64>,
    date_seen: bool,
    completed_at: Option<u64>,
}

impl View for PartialLegacy {
    type V = PartialView;

    closed spec fn view(&self) -> PartialView {
        PartialView {
            id: opt_str_view(self.id),
            description: opt_str_view(self.description),
            completed: self.completed,
            created_at: self.created_at,
            date_seen: self.date_seen,
            completed_at: self.completed_at,
        }
    }
}

fn key_is(key: &String, lit: &str) -> (r: bool)
    ensures
        r == (key@ == lit@),
{
    *key == lit.to_owned()
}

fn parse_jstring(s: &Vec<char>, i: usize) -> (r: Option<(Vec<char>, usize)>)
    requires
        i <= s@.len(),
    ensures
        r matches Some((cs, j)) ==> spec_parse_jstring(s@, i as int) == Some((cs@, j as int)) && i
            < j <= s@.len(),
        r is None ==> spec_parse_jstring(s@, i as int) is None,
{
    if i < s.len() && s[i] == '"' {
        parse_string_body(s, i + 1)
    } else {
        None
    }
}

fn parse_field(s: &Vec<char>, i: usize, m: PartialLegacy, key: &String) -> (r: Option<
    (PartialLegacy, usize),
>)
    requires
        i <= s@.len(),
    ensures
        r matches Some((m2, j)) ==> spec_parse_field(s@, i as int, m@, key@) == Some(
            (m2@, j as int),
        ) && i < j <= s@.len(),
        r is None ==> spec_parse_field(s@, i as int, m@, key@) is None,
{
    if key_is(key, "id") {
        if m.id.is_some() {
            return None;
        }
        match parse_jstring(s, i) {
            Some((cs, j)) => Some((PartialLegacy { id: Some(string_from_chars(&cs)), ..m }, j)),
            None => None,
        }
    } else if key_is(key, "description") {
        if m.description.is_some() {
            return None;
        }
        match parse_jstring(s, i) {
            Some((cs, j)) => Some(
                (PartialLegacy { description: Some(string_from_chars(&cs)), ..m }, j),
            ),
            None => None,
        }
    } else if key_is(key, "completed") {
        if m.completed.is_some() {
            return None;
        }
        match parse_bool(s, i) {
            Some((v, j)) => Some((PartialLegacy { completed: Some(v), ..m }, j)),
            None => None,
        }
    } else if key_is(key, "created_at") {
        if m.created_at.is_some() {
            return None;
        }
        match parse_number(s, i) {
            Some((v, j)) => Some((PartialLegacy { created_at: Some(v), ..m }, j)),
            None => None,
        }
    } else if key_is(key, "created_at_date") {
        if m.date_seen {
            return None;
        }
        match parse_jstring(s, i) {
            Some((cs, j)) => Some((PartialLegacy { date_seen: true, ..m }, j)),
            None => None,
        }
    } else if key_is(key, "completed_at") {
        if m.completed_at.is_some() {
            return None;
        }
        match parse_number(s, i) {
            Some((v, j)) => Some((PartialLegacy { completed_at: Some(v), ..m }, j)),
            None => None,
        }
    } else {
        None
    }
}

fn parse_members(s: &Vec<char>, i: usize, m0: PartialLegacy) -> (r: Option<(PartialLegacy, usize)>)
    requires
        i <= s@.len(),
    ensures
        r matches Some((m2, k)) ==> spec_parse_members(s@, i as int, m0@) == Some(
            (m2@, k as int),
        ) && i < k <= s@.len(),
        r is None ==> spec_parse_members(s@, i as int, m0@) is None,
{
    let mut m = m0;
    let mut j: usize = i;
    loop
        invariant
            i <= j <= s@.len(),
            spec_parse_members(s@, j as int, m@) == spec_parse_members(s@, i as int, m0@),
        decreases s@.len() - j,
    {
        if !(j < s.len() && s[j] == '"') {
            return None;
        }
        let (key_chars, j2) = match parse_string_body(s, j + 1) {
            Some(p) => p,
            None => {
                return None;
            },
        };
        let key = string_from_chars(&key_chars);
        let j3 = skip_ws(s, j2);
        if !(j3 < s.len() && s[j3] == ':') {
            return None;
        }
        let j4 = skip_ws(s, j3 + 1);
        let (m2, j5) = match parse_field(s, j4, m, &key) {
            Some(p) => p,
            None => {
                return None;
            },
        };
        let j6 = skip_ws(s, j5);
        if !(j6 < s.len()) {
            return None;
        }
        if s[j6] == ',' {
            m = m2;
            j = skip_ws(s, j6 + 1);
        } else if s[j6] == '}' {
            return Some((m2, j6 + 1));
        } else {
            return None;
        }
    }
}

fn parse_object(s: &Vec<char>, i: usize) -> (r: Option<(LegacyTask, usize)>)
    requires
        i <= s@.len(),
    ensures
        r matches Some((t, j)) ==> spec_parse_object(s@, i as int) == Some((t@, j as int)) && i < j
            <= s@.len(),
        r is None ==> spec_parse_object(s@, i as int) is None,
{
    if !(i < s.len() && s[i] == '{') {
        return None;
    }
    let j = skip_ws(s, i + 1);
    let m0 = PartialLegacy {
        id: None,
        description: None,
        completed: None,
        created_at: None,
        date_seen: false,
        completed_at: None,
    };
    proof {
        assert(m0@ == empty_partial());
    }
    match parse_members(s, j, m0) {
        None => None,
        Some((m, k)) => {
            let PartialLegacy { id, description, completed, created_at, completed_at, .. } = m;
            match (description, completed, created_at) {
                (Some(d), Some(c), Some(t)) => {
                    if t <= MAX_TIMESTAMP {
                        Some(
                            (
                                LegacyTask {
                                    id,
                                    description: d,
                                    completed: c,
                                    created_at: t,
                                    completed_at,
                                },
                                k,
                            ),
                        )
                    } else {
                        None
                    }
                },
                _ => None,
            }
        },
    }
}

/// The records as mathematical values.
pub open spec fn views_of(ts: Seq<LegacyTask>) -> Seq<LegacyView> {
    ts.map(|i: int, t: LegacyTask| t@)
}

fn parse_elements(s: &Vec<char>, i: usize, acc0: Vec<LegacyTask>) -> (r: Option<
    (Vec<LegacyTask>, usize),
>)
    requires
        i <= s@.len(),
    ensures
        r matches Some((v, k)) ==> spec_parse_elements(s@, i as int, views_of(acc0@)) == Some(
            (views_of(v@), k as int),
        ) && i < k <= s@.len(),
        r is None ==> spec_parse_elements(s@, i as int, views_of(acc0@)) is None,
{
    let mut acc = acc0;
    let mut j: usize = i;
    loop
        invariant
            i <= j <= s@.len(),
            spec_parse_elements(s@, j as int, views_of(acc@)) == spec_parse_elements(
                s@,
                i as int,
                views_of(acc0@),
            ),
        decreases s@.len() - j,
    {
        let (t, j2) = match parse_object(s, j) {
            Some(p) => p,
            None => {
                return None;
            },
        };
        let j3 = skip_ws(s, j2);
        if !(j3 < s.len()) {
            return None;
        }
        if s[j3] == ',' {
            proof {
                assert(views_of(acc@.push(t)) =~= views_of(acc@).push(t@));
            }
            acc.push(t);
            j = skip_ws(s, j3 + 1);
        } else if s[j3] == ']' {
            proof {
                assert(views_of(acc@.push(t)) =~= views_of(acc@).push(t@));
            }
            acc.push(t);
            return Some((acc, j3 + 1));
        } else {
            return None;
        }
    }
}

/// Decodes the whole legacy text: blank text holds no records, and any
/// text that is not a well-formed array of task objects is corrupt.
pub fn parse_legacy_tasks(text: &str) -> (r: Result<Vec<LegacyTask>, CorruptLegacyData>)
    ensures
        r matches Ok(v) ==> spec_parse_legacy(text@) == Some(views_of(v@)),
        r is Err ==> spec_parse_legacy(text@) is None,
{
    let s = chars_of(text);
    proof {
        assert(views_of(Seq::<LegacyTask>::empty()) =~= Seq::<LegacyView>::empty());
    }
    let i = skip_ws(&s, 0);
    if i == s.len() {
        let empty: Vec<LegacyTask> = Vec::new();
        return Ok(empty);
    }
    if s[i] != '[' {
        return Err(CorruptLegacyData);
    }
    let j = skip_ws(&s, i + 1);
    if j < s.len() && s[j] == ']' {
        let k = skip_ws(&s, j + 1);
        if k == s.len() {
            let empty: Vec<LegacyTask> = Vec::new();
            return Ok(empty);
        } else {
            return Err(CorruptLegacyData);
        }
    }
    match parse_elements(&s, j, Vec::new()) {
        Some((v, k)) => {
            let k2 = skip_ws(&s, k);
            if k2 == s.len() {
                Ok(v)
            } else {
                Err(CorruptLegacyData)
            }
        },
        None => Err(CorruptLegacyData),
    }
}

/// The whole legacy text: blank text is zero records; otherwise one
/// array of task objects with nothing but whitespace after it.
pub open spec fn spec_parse_legacy(s: Seq<char>) -> Option<Seq<LegacyView>> {
    let i: int = spec_skip_ws(s, 0);
    if i >= s.len() {
        Some(Seq::empty())
    } else if s[i] == '[' {
        let j: int = spec_skip_ws(s, i + 1);
        if j < s.len() && s[j] == ']' {
            if spec_skip_ws(s, j + 1) == s.len() {
                Some(Seq::empty())
            } else {
                None
            }
        } else {
            match spec_parse_elements(s, j, Seq::empty()) {
                Some((recs, k)) => if spec_skip_ws(s, k) == s.len() {
                    Some(recs)
                } else {
                    None
                },
                None => None,
            }
        }
    } else {
        None
    }
}

} // verus!
