//! Value types shared by the whole platform: opaque 128-bit identifiers,
//! second-precision timestamps, opaque JSON payloads, outcome
//! classification, and content locators for module bytes.

use vstd::prelude::*;

verus! {

use vstd::arithmetic::power::pow;
use vstd::arithmetic::div_mod::lemma_small_mod;
use vstd::string::StrSliceExecFns;
use vstd::string::StringExecFns;
use crate::numeral::{
    digits_le,
    value_be,
    byte_digits,
    digits_of,
    lemma_digits_len,
    lemma_digits_bounded,
    lemma_digits_value,
    lemma_value_be_reverse,
    lemma_value_be_bound,
};

/// The character that renders one digit value, lower case.
pub open spec fn digit_char(d: nat) -> char {
    if d == 0 {
        '0'
    } else if d == 1 {
        '1'
    } else if d == 2 {
        '2'
    } else if d == 3 {
        '3'
    } else if d == 4 {
        '4'
    } else if d == 5 {
        '5'
    } else if d == 6 {
        '6'
    } else if d == 7 {
        '7'
    } else if d == 8 {
        '8'
    } else if d == 9 {
        '9'
    } else if d == 10 {
        'a'
    } else if d == 11 {
        'b'
    } else if d == 12 {
        'c'
    } else if d == 13 {
        'd'
    } else if d == 14 {
        'e'
    } else if d == 15 {
        'f'
    } else {
        '?'
    }
}

/// The digit value a character denotes; 16 marks a non-digit.
pub open spec fn char_digit(c: char) -> nat {
    if c == '0' {
        0
    } else if c == '1' {
        1
    } else if c == '2' {
        2
    } else if c == '3' {
        3
    } else if c == '4' {
        4
    } else if c == '5' {
        5
    } else if c == '6' {
        6
    } else if c == '7' {
        7
    } else if c == '8' {
        8
    } else if c == '9' {
        9
    } else if c == 'a' || c == 'A' {
        10
    } else if c == 'b' || c == 'B' {
        11
    } else if c == 'c' || c == 'C' {
        12
    } else if c == 'd' || c == 'D' {
        13
    } else if c == 'e' || c == 'E' {
        14
    } else if c == 'f' || c == 'F' {
        15
    } else {
        16
    }
}

/// Digits rendered most significant first.
pub open spec fn chars_of_digits(ds: Seq<nat>) -> Seq<char> {
    ds.reverse().map_values(|d: nat| digit_char(d))
}

/// All characters denote digits below `base`.
pub open spec fn all_digit_chars(cs: Seq<char>, base: nat) -> bool {
    forall|i: int| 0 <= i < cs.len() ==> char_digit(cs[i]) < base
}

/// The number a string of digit characters denotes, most significant first.
pub open spec fn chars_value(cs: Seq<char>, base: nat) -> nat {
    value_be(cs.map_values(|c: char| char_digit(c)), base)
}

/// Rendering one digit and reading it back is the identity.
pub proof fn lemma_digit_char_inverse(d: nat)
    requires
        d < 16,
    ensures
        char_digit(digit_char(d)) == d,
{
}

/// Renders a fixed-width digit string, most significant digit first.
pub(crate) fn render_digits(ds: &Vec<u8>) -> (out: String)
    requires
        forall|k: int| 0 <= k < ds.len() ==> ds@[k] < 16,
    ensures
        out@ == chars_of_digits(byte_digits(ds@)),
{
    let width = ds.len();
    let ghost target = chars_of_digits(byte_digits(ds@));
    proof {
        assert(target.len() == width);
    }
    let mut out = String::new();
    let mut j: usize = 0;
    while j < width
        invariant
            width == ds.len(),
            forall|k: int| 0 <= k < ds.len() ==> ds@[k] < 16,
            target == chars_of_digits(byte_digits(ds@)),
            target.len() == width,
            j <= width,
            out@ =~= target.subrange(0, j as int),
        decreases width - j,
    {
        let d: u8 = ds[width - 1 - j];
        proof {
            assert(target[j as int] == digit_char(byte_digits(ds@).reverse()[j as int]));
            assert(byte_digits(ds@).reverse()[j as int] == byte_digits(ds@)[width - 1 - j]);
        }
        push_digit_char(&mut out, d);
        j = j + 1;
    }
    proof {
        assert(out@ =~= target);
    }
    out
}

/// Appends the character of one digit value to a string.
fn push_digit_char(out: &mut String, d: u8)
    requires
        d < 16,
    ensures
        final(out)@ == old(out)@.push(digit_char(d as nat)),
{
    if d == 0 {
        out.append("0");
        proof {
            reveal_strlit("0");
            assert(out@ =~= old(out)@.push(digit_char(d as nat)));
        }
    } else if d == 1 {
        out.append("1");
        proof {
            reveal_strlit("1");
            assert(out@ =~= old(out)@.push(digit_char(d as nat)));
        }
    } else if d == 2 {
        out.append("2");
        proof {
            reveal_strlit("2");
            assert(out@ =~= old(out)@.push(digit_char(d as nat)));
        }
    } else if d == 3 {
        out.append("3");
        proof {
            reveal_strlit("3");
            assert(out@ =~= old(out)@.push(digit_char(d as nat)));
        }
    } else if d == 4 {
        out.append("4");
        proof {
            reveal_strlit("4");
            assert(out@ =~= old(out)@.push(digit_char(d as nat)));
        }
    } else if d == 5 {
        out.append("5");
        proof {
            reveal_strlit("5");
            assert(out@ =~= old(out)@.push(digit_char(d as nat)));
        }
    } else if d == 6 {
        out.append("6");
        proof {
            reveal_strlit("6");
            assert(out@ =~= old(out)@.push(digit_char(d as nat)));
        }
    } else if d == 7 {
        out.append("7");
        proof {
            reveal_strlit("7");
            assert(out@ =~= old(out)@.push(digit_char(d as nat)));
        }
    } else if d == 8 {
        out.append("8");
        proof {
            reveal_strlit("8");
            assert(out@ =~= old(out)@.push(digit_char(d as nat)));
        }
    } else if d == 9 {
        out.append("9");
        proof {
            reveal_strlit("9");
            assert(out@ =~= old(out)@.push(digit_char(d as nat)));
        }
    } else if d == 10 {
        out.append("a");
        proof {
            reveal_strlit("a");
            assert(out@ =~= old(out)@.push(digit_char(d as nat)));
        }
    } else if d == 11 {
        out.append("b");
        proof {
            reveal_strlit("b");
            assert(out@ =~= old(out)@.push(digit_char(d as nat)));
        }
    } else if d == 12 {
        out.append("c");
        proof {
            reveal_strlit("c");
            assert(out@ =~= old(out)@.push(digit_char(d as nat)));
        }
    } else if d == 13 {
        out.append("d");
        proof {
            reveal_strlit("d");
            assert(out@ =~= old(out)@.push(digit_char(d as nat)));
        }
    } else if d == 14 {
        out.append("e");
        proof {
            reveal_strlit("e");
            assert(out@ =~= old(out)@.push(digit_char(d as nat)));
        }
    } else {
        out.append("f");
        proof {
            reveal_strlit("f");
            assert(out@ =~= old(out)@.push(digit_char(d as nat)));
        }
    }
}

/// What a fixed-width digit string of `width` characters denotes, or
/// nothing where the text has the wrong length or a non-digit.
pub open spec fn spec_parse_digits(cs: Seq<char>, base: nat, width: nat) -> Option<nat> {
    if cs.len() == width && all_digit_chars(cs, base) {
        Some(chars_value(cs, base))
    } else {
        None
    }
}

/// Reads a fixed-width digit string, most significant digit first.
pub(crate) fn parse_digits(s: &str, base: u8, width: usize) -> (r: Option<u128>)
    requires
        2 <= base <= 16,
        width <= 32,
    ensures
        match r {
            Some(x) => spec_parse_digits(s@, base as nat, width as nat) == Some(x as nat),
            None => spec_parse_digits(s@, base as nat, width as nat) is None,
        },
{
    let n = s.unicode_len();
    if n != width {
        return None;
    }
    let mut acc: u128 = 0;
    let mut j: usize = 0;
    proof {
        assert(pow(16, 0) == 1) by {
            reveal(pow);
        }
    }
    while j < width
        invariant
            2 <= base <= 16,
            width <= 32,
            s@.len() == width,
            j <= width,
            all_digit_chars(s@.subrange(0, j as int), base as nat),
            acc as nat == chars_value(s@.subrange(0, j as int), base as nat),
            acc < pow(16, j as nat),
        decreases width - j,
    {
        let ghost pre = s@.subrange(0, j as int);
        let c = s.get_char(j);
        let d: u8 = match digit_of_char(c, base) {
            Some(d) => d,
            None => {
                proof {
                    assert(char_digit(s@[j as int]) >= base);
                    assert(!all_digit_chars(s@, base as nat));
                }
                return None;
            },
        };
        proof {
            assert(pow(16, j as nat) <= pow(16, 31)) by {
                vstd::arithmetic::power::lemma_pow_increases(16, j as nat, 31);
            }
            assert(pow(16, 31) == 0x10000000000000000000000000000000) by {
                reveal_with_fuel(pow, 32);
            }
            assert(acc as int * base as int + d as int <= 0xffffffffffffffffffffffffffffffff)
                by (nonlinear_arith)
                requires
                    acc <= 0xfffffffffffffffffffffffffffffff,
                    base <= 16,
                    d < 16,
            ;
            assert(acc as int * 16 + 15 < pow(16, (j + 1) as nat)) by {
                assert(pow(16, (j + 1) as nat) == 16 * pow(16, j as nat)) by {
                    reveal(pow);
                }
                assert(acc as int * 16 + 15 < 16 * pow(16, j as nat)) by (nonlinear_arith)
                    requires
                        acc < pow(16, j as nat),
                ;
            }
            assert(acc as int * base as int + d as int <= acc as int * 16 + 15)
                by (nonlinear_arith)
                requires
                    base <= 16,
                    d < 16,
                    acc >= 0,
            ;
        }
        let next: u128 = acc * (base as u128) + (d as u128);
        proof {
            let post = s@.subrange(0, j + 1 as int);
            let pd = pre.map_values(|ch: char| char_digit(ch));
            let qd = post.map_values(|ch: char| char_digit(ch));
            assert(qd.drop_last() =~= pd);
            assert(qd.last() == char_digit(s@[j as int]));
            assert(value_be(qd, base as nat) == base as nat * value_be(pd, base as nat)
                + char_digit(s@[j as int]));
            assert(all_digit_chars(post, base as nat));
        }
        acc = next;
        j = j + 1;
    }
    proof {
        assert(s@.subrange(0, width as int) =~= s@);
    }
    Some(acc)
}

/// Reads one digit character, accepting either letter case.
fn digit_of_char(c: char, base: u8) -> (r: Option<u8>)
    requires
        2 <= base <= 16,
    ensures
        match r {
            Some(d) => d < base && char_digit(c) == d as nat,
            None => char_digit(c) >= base,
        },
{
    let v: u8 = match c {
        '0' => 0,
        '1' => 1,
        '2' => 2,
        '3' => 3,
        '4' => 4,
        '5' => 5,
        '6' => 6,
        '7' => 7,
        '8' => 8,
        '9' => 9,
        'a' | 'A' => 10,
        'b' | 'B' => 11,
        'c' | 'C' => 12,
        'd' | 'D' => 13,
        'e' | 'E' => 14,
        'f' | 'F' => 15,
        _ => 16,
    };
    if v < base {
        Some(v)
    } else {
        None
    }
}

/// A process-unique opaque identifier: a 128-bit value, totally ordered,
/// with a textual form of 32 hexadecimal digits that round-trips.
#[derive(Clone, Copy, Debug, PartialEq, Eq, Structural, PartialOrd, Ord, Hash)]
pub struct Id {
    pub value: u128,
}

/// The 32 hexadecimal characters that render an identifier.
pub open spec fn id_chars(v: u128) -> Seq<char> {
    chars_of_digits(digits_le(v as nat, 16, 32))
}

/// The text with the four fixed hyphens of the grouped identifier form
/// taken out.
pub open spec fn unhyphenated(cs: Seq<char>) -> Seq<char> {
    cs.subrange(0, 8) + cs.subrange(9, 13) + cs.subrange(14, 18) + cs.subrange(19, 23)
        + cs.subrange(24, 36)
}

/// Is the text the 36-character grouped identifier form: hyphens at the
/// four fixed places?
pub open spec fn is_hyphenated_form(cs: Seq<char>) -> bool {
    cs.len() == 36 && cs[8] == '-' && cs[13] == '-' && cs[18] == '-' && cs[23] == '-'
}

/// What parsing an identifier text yields: the plain 32-digit form, or the
/// grouped form with its four hyphens taken out.
pub open spec fn spec_parse_id(cs: Seq<char>) -> Option<Id> {
    let ds = if is_hyphenated_form(cs) {
        unhyphenated(cs)
    } else {
        cs
    };
    match spec_parse_digits(ds, 16, 32) {
        Some(v) => Some(Id { value: v as u128 }),
        None => None,
    }
}

/// Relies on uuid::Uuid::new_v4 for a freshly drawn random 128-bit value;
/// nothing is assumed of which value comes back.
#[verifier::external_body]
fn fresh_id_bits() -> u128 {
    uuid::Uuid::new_v4().as_u128()
}

impl Id {
    /// Draws a fresh random identifier.
    pub fn new() -> Id {
        Id { value: fresh_id_bits() }
    }

    /// Renders the identifier as 32 hexadecimal digits.
    pub fn format(&self) -> (r: String)
        ensures
            r@ == id_chars(self.value),
    {
        proof {
            lemma_digits_len(self.value as nat, 16, 32);
            lemma_digits_bounded(self.value as nat, 16, 32);
        }
        let ds = digits_of(self.value, 16, 32);
        render_digits(&ds)
    }

    /// Reads an identifier back from its textual form — 32 hexadecimal
    /// digits, plain or in the grouped form with four hyphens; `None`
    /// exactly on any other text.
    pub fn parse(s: &str) -> (r: Option<Id>)
        ensures
            r == spec_parse_id(s@),
    {
        let n = s.unicode_len();
        if n == 36 {
            let grouped = s.get_char(8) == '-' && s.get_char(13) == '-' && s.get_char(18) == '-'
                && s.get_char(23) == '-';
            if grouped {
                let mut plain = String::new();
                plain.append(s.substring_char(0, 8));
                plain.append(s.substring_char(9, 13));
                plain.append(s.substring_char(14, 18));
                plain.append(s.substring_char(19, 23));
                plain.append(s.substring_char(24, 36));
                proof {
                    assert(plain@ =~= unhyphenated(s@));
                }
                return Id::parse_plain(plain.as_str());
            }
            proof {
                assert(!is_hyphenated_form(s@));
                assert(spec_parse_digits(s@, 16, 32) is None);
            }
            return None;
        }
        proof {
            assert(!is_hyphenated_form(s@));
        }
        Id::parse_plain(s)
    }

    /// Reads the plain 32-digit form.
    fn parse_plain(s: &str) -> (r: Option<Id>)
        ensures
            r == (match spec_parse_digits(s@, 16, 32) {
                Some(v) => Some(Id { value: v as u128 }),
                None => None::<Id>,
            }),
    {
        proof {
            if s@.len() == 32 && all_digit_chars(s@, 16) {
                lemma_chars_value_bound(s@, 16);
                assert(pow(16, 32) == 0x100000000000000000000000000000000) by {
                    reveal_with_fuel(pow, 33);
                }
            }
        }
        match parse_digits(s, 16, 32) {
            Some(v) => Some(Id { value: v }),
            None => None,
        }
    }
}

/// A digit string of `len` characters denotes a value below `base^len`.
pub proof fn lemma_chars_value_bound(cs: Seq<char>, base: nat)
    requires
        2 <= base,
        all_digit_chars(cs, base),
    ensures
        chars_value(cs, base) < pow(base as int, cs.len()),
{
    let ds = cs.map_values(|c: char| char_digit(c));
    assert(forall|i: int| 0 <= i < ds.len() ==> ds[i] < base);
    lemma_value_be_bound(ds, base);
}

/// Reading an identifier's rendering yields the identifier again.
pub proof fn lemma_id_round_trip(id: Id)
    ensures
        spec_parse_id(id_chars(id.value)) == Some(id),
{
    let v = id.value as nat;
    lemma_render_parse(v, 16, 32);
    assert(pow(16, 32) == 0x100000000000000000000000000000000) by {
        reveal_with_fuel(pow, 33);
    }
    lemma_small_mod(v, pow(16, 32) as nat);
}

/// Rendering `n` digits of `v` and reading them back yields `v mod base^n`.
pub proof fn lemma_render_parse(v: nat, base: nat, n: nat)
    requires
        2 <= base <= 16,
    ensures
        chars_of_digits(digits_le(v, base, n)).len() == n,
        all_digit_chars(chars_of_digits(digits_le(v, base, n)), base),
        chars_value(chars_of_digits(digits_le(v, base, n)), base) == v % (pow(
            base as int,
            n,
        ) as nat),
{
    let ds = digits_le(v, base, n);
    lemma_digits_len(v, base, n);
    lemma_digits_bounded(v, base, n);
    let cs = chars_of_digits(ds);
    assert forall|i: int| 0 <= i < cs.len() implies char_digit(cs[i]) < base by {
        let d = ds.reverse()[i];
        assert(d == ds[n - 1 - i]);
        assert(d < base);
        lemma_digit_char_inverse(d);
    }
    assert(cs.map_values(|c: char| char_digit(c)) =~= ds.reverse()) by {
        assert forall|i: int| 0 <= i < cs.len() implies cs.map_values(|c: char| char_digit(c))[i]
            == ds.reverse()[i] by {
            let d = ds.reverse()[i];
            assert(d == ds[n - 1 - i]);
            lemma_digit_char_inverse(d);
        }
    }
    lemma_value_be_reverse(ds, base);
    lemma_digits_value(v, base, n);
}

/// A UTC instant at second precision, totally ordered, with a fixed-width
/// decimal textual form that round-trips.
#[derive(Clone, Copy, Debug, PartialEq, Eq, Structural, PartialOrd, Ord, Hash)]
pub struct TimeStamp {
    pub secs: u64,
}

/// The 20 decimal characters that render a timestamp.
pub open spec fn timestamp_chars(secs: u64) -> Seq<char> {
    chars_of_digits(digits_le(secs as nat, 10, 20))
}

/// What parsing a timestamp text yields.
pub open spec fn spec_parse_timestamp(cs: Seq<char>) -> Option<TimeStamp> {
    match spec_parse_digits(cs, 10, 20) {
        Some(v) => if v <= u64::MAX {
            Some(TimeStamp { secs: v as u64 })
        } else {
            None
        },
        None => None,
    }
}

/// Relies on std::time::SystemTime::now for the current wall-clock time,
/// clamped to the epoch on a clock set before it (the pre-epoch reading is
/// the `Err` arm, so no clock state panics); nothing is assumed of which
/// instant comes back.
#[verifier::external_body]
fn wall_clock_seconds() -> u64 {
    match std::time::SystemTime::now().duration_since(std::time::UNIX_EPOCH) {
        Ok(d) => d.as_secs(),
        Err(_) => 0,
    }
}

impl TimeStamp {
    /// Reads the wall clock.
    pub fn now() -> TimeStamp {
        TimeStamp { secs: wall_clock_seconds() }
    }

    /// Builds the instant `secs` seconds after the epoch.
    pub fn from_secs(secs: u64) -> (r: TimeStamp)
        ensures
            r.secs == secs,
    {
        TimeStamp { secs }
    }

    /// Renders the timestamp as 20 decimal digits.
    pub fn format(&self) -> (r: String)
        ensures
            r@ == timestamp_chars(self.secs),
    {
        proof {
            lemma_digits_len(self.secs as nat, 10, 20);
            lemma_digits_bounded(self.secs as nat, 10, 20);
        }
        let ds = digits_of(self.secs as u128, 10, 20);
        render_digits(&ds)
    }

    /// Reads a timestamp back from its textual form; `None` exactly on
    /// text that is not 20 decimal digits or denotes a value over `u64::MAX`.
    pub fn parse(s: &str) -> (r: Option<TimeStamp>)
        ensures
            r == spec_parse_timestamp(s@),
    {
        match parse_digits(s, 10, 20) {
            Some(v) => {
                if v <= u64::MAX as u128 {
                    Some(TimeStamp { secs: v as u64 })
                } else {
                    None
                }
            },
            None => None,
        }
    }
}

/// Reading a timestamp's rendering yields the timestamp again.
pub proof fn lemma_timestamp_round_trip(t: TimeStamp)
    ensures
        spec_parse_timestamp(timestamp_chars(t.secs)) == Some(t),
{
    let v = t.secs as nat;
    lemma_render_parse(v, 10, 20);
    assert(pow(10, 20) == 100000000000000000000) by {
        reveal_with_fuel(pow, 21);
    }
    lemma_small_mod(v, pow(10, 20) as nat);
}

/// Exclusive classification of one finished invocation.
#[derive(Clone, Copy, Debug, PartialEq, Eq, Structural)]
pub enum ExitKind {
    /// The module ran to completion and returned a value.
    Success,
    /// The module faulted; the code tells the classes of fault apart.
    Failure { exit_code: u8 },
    /// The module exceeded its per-call execution budget.
    TimeOut,
}

/// Opaque content locator for a function's module bytes.
#[derive(Clone, Debug, PartialEq, Eq)]
pub struct BlobAddress {
    pub location: String,
}

/// The declared outside type of a parsed JSON document.
#[verifier::external_type_specification]
#[verifier::external_body]
pub struct ExJsonValue(serde_json::Value);

/// The declared outside type of a JSON parse failure.
#[verifier::external_type_specification]
#[verifier::external_body]
pub struct ExJsonError(serde_json::Error);

/// An opaque JSON payload, carried through the core unread.
pub struct JsonData {
    pub value: serde_json::Value,
}

/// The payload was not a well-formed JSON document.
#[derive(Clone, Copy, Debug, PartialEq, Eq, Structural)]
pub struct MalformedPayload;

/// The top-level shape of a JSON document, all the core reads of one.
#[derive(Clone, Copy, Debug, PartialEq, Eq, Structural)]
pub enum JsonShape {
    Null,
    Bool,
    Number,
    Text,
    Array,
    Object,
}

/// Whether a byte sequence is one well-formed JSON document, as
/// serde_json::from_slice accepts it: a function of the bytes alone.
pub uninterp spec fn json_wf(bytes: Seq<u8>) -> bool;

/// Relies on serde_json::from_slice: decodes one JSON document from bytes,
/// succeeding exactly on well-formed input.
#[verifier::external_body]
fn json_from_bytes(bytes: &[u8]) -> (r: Result<serde_json::Value, serde_json::Error>)
    ensures
        r is Ok <==> json_wf(bytes@),
{
    serde_json::from_slice(bytes)
}

/// Relies on serde_json::to_vec: encodes one JSON document as bytes.
#[verifier::external_body]
fn json_to_bytes(value: &serde_json::Value) -> Result<Vec<u8>, serde_json::Error> {
    serde_json::to_vec(value)
}

/// Relies on the public variants of serde_json::Value: names the top-level
/// shape of the document, moving no data.
#[verifier::external_body]
fn json_shape_of(value: &serde_json::Value) -> JsonShape {
    match value {
        serde_json::Value::Null => JsonShape::Null,
        serde_json::Value::Bool(_) => JsonShape::Bool,
        serde_json::Value::Number(_) => JsonShape::Number,
        serde_json::Value::String(_) => JsonShape::Text,
        serde_json::Value::Array(_) => JsonShape::Array,
        serde_json::Value::Object(_) => JsonShape::Object,
    }
}

/// Relies on serde_json::Value::clone: duplicates the document.
#[verifier::external_body]
fn json_clone(value: &serde_json::Value) -> serde_json::Value {
    value.clone()
}

impl Clone for JsonData {
    fn clone(&self) -> JsonData {
        JsonData { value: json_clone(&self.value) }
    }
}

impl JsonData {
    /// Parses bytes into a payload: a payload exactly when the bytes are
    /// one well-formed JSON document, the error exactly otherwise.
    pub fn try_from(value: Vec<u8>) -> (r: Result<JsonData, MalformedPayload>)
        ensures
            r is Ok <==> json_wf(value@),
    {
        match json_from_bytes(value.as_slice()) {
            Ok(v) => Ok(JsonData { value: v }),
            Err(_) => Err(MalformedPayload),
        }
    }

    /// Encodes the payload back into bytes.
    pub fn to_bytes(&self) -> Result<Vec<u8>, MalformedPayload> {
        match json_to_bytes(&self.value) {
            Ok(b) => Ok(b),
            Err(_) => Err(MalformedPayload),
        }
    }

    /// The top-level shape of the payload.
    pub fn shape(&self) -> JsonShape {
        json_shape_of(&self.value)
    }
}

} // verus!
