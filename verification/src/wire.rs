//! A textual form for the routing table, so a seeded catalog can be carried
//! whole: every number is a fixed-width numeral, every text is length-
//! prefixed, and decoding an encoded table yields the same bindings.

use vstd::prelude::*;

verus! {

use vstd::arithmetic::power::pow;
use vstd::arithmetic::div_mod::lemma_small_mod;
use vstd::string::StrSliceExecFns;
use vstd::string::StringExecFns;
use crate::numeral::{digits_le, lemma_digits_len};
use crate::types::{
    TimeStamp,
    chars_of_digits,
    spec_parse_digits,
    lemma_render_parse,
};
use crate::catalog::{Function, FunctionId, InputKind, PathEntry, Runtime};

/// A length or timestamp as 20 decimal digits.
pub open spec fn enc_len(n: nat) -> Seq<char> {
    chars_of_digits(digits_le(n, 10, 20))
}

/// An identifier as 32 hexadecimal digits.
pub open spec fn enc_u128(v: u128) -> Seq<char> {
    chars_of_digits(digits_le(v as nat, 16, 32))
}

/// A text as its length followed by its characters, verbatim.
pub open spec fn enc_text(s: Seq<char>) -> Seq<char> {
    enc_len(s.len()) + s
}

/// An input descriptor as one tag character per node.
pub open spec fn enc_kind(k: InputKind) -> Seq<char>
    decreases k,
{
    match k {
        InputKind::Nothing => seq!['n'],
        InputKind::List(inner) => seq!['l'] + enc_kind(*inner),
        InputKind::Object => seq!['o'],
        InputKind::Text => seq!['s'],
        InputKind::Number => seq!['d'],
    }
}

/// A function record, field by field; the runtime is one tag character.
pub open spec fn enc_function(f: Function) -> Seq<char> {
    enc_u128(f.id.0.value) + enc_text(f.name@) + enc_text(f.description@) + enc_len(
        f.create_time.secs as nat,
    ) + seq!['w'] + enc_kind(f.input_type) + enc_text(f.blob_address.location@)
}

/// One binding: both path levels, then the function.
pub open spec fn enc_entry(e: PathEntry) -> Seq<char> {
    enc_text(e.root.0@) + enc_text(e.sub_path.0@) + enc_function(e.function)
}

/// The bindings in order.
pub open spec fn enc_entry_seq(s: Seq<PathEntry>) -> Seq<char>
    decreases s.len(),
{
    if s.len() == 0 {
        Seq::empty()
    } else {
        enc_entry(s[0]) + enc_entry_seq(s.subrange(1, s.len() as int))
    }
}

/// The whole table: its size, then the bindings.
pub open spec fn enc_entries(s: Seq<PathEntry>) -> Seq<char> {
    enc_len(s.len()) + enc_entry_seq(s)
}

/// A function record by its textual content: what decoding pins down.
pub struct FunctionText {
    pub id: FunctionId,
    pub name: Seq<char>,
    pub description: Seq<char>,
    pub create_time: TimeStamp,
    pub runtime: Runtime,
    pub input_type: InputKind,
    pub blob_address: Seq<char>,
}

/// A binding by its textual content.
pub struct PathEntryText {
    pub root: Seq<char>,
    pub sub_path: Seq<char>,
    pub function: FunctionText,
}

/// The textual content of a function record.
pub open spec fn function_text(f: Function) -> FunctionText {
    FunctionText {
        id: f.id,
        name: f.name@,
        description: f.description@,
        create_time: f.create_time,
        runtime: f.runtime,
        input_type: f.input_type,
        blob_address: f.blob_address.location@,
    }
}

/// The textual content of a binding.
pub open spec fn entry_text(e: PathEntry) -> PathEntryText {
    PathEntryText {
        root: e.root.0@,
        sub_path: e.sub_path.0@,
        function: function_text(e.function),
    }
}

/// The texts a binding carries all fit the length prefix.
pub open spec fn entry_fits(e: PathEntry) -> bool {
    &&& e.root.0@.len() <= u64::MAX
    &&& e.sub_path.0@.len() <= u64::MAX
    &&& e.function.name@.len() <= u64::MAX
    &&& e.function.description@.len() <= u64::MAX
    &&& e.function.blob_address.location@.len() <= u64::MAX
}

/// Reads a 20-digit decimal numeral.
pub open spec fn dec_len(cs: Seq<char>, pos: int) -> Option<(u64, int)> {
    if 0 <= pos && pos + 20 <= cs.len() {
        match spec_parse_digits(cs.subrange(pos, pos + 20), 10, 20) {
            Some(v) => if v <= u64::MAX {
                Some(((v as u64), pos + 20))
            } else {
                None
            },
            None => None,
        }
    } else {
        None
    }
}

/// Reads a 32-digit hexadecimal numeral.
pub open spec fn dec_u128(cs: Seq<char>, pos: int) -> Option<(u128, int)> {
    if 0 <= pos && pos + 32 <= cs.len() {
        match spec_parse_digits(cs.subrange(pos, pos + 32), 16, 32) {
            Some(v) => if v <= u128::MAX {
                Some(((v as u128), pos + 32))
            } else {
                None
            },
            None => None,
        }
    } else {
        None
    }
}

/// Reads a length-prefixed text.
pub open spec fn dec_text(cs: Seq<char>, pos: int) -> Option<(Seq<char>, int)> {
    match dec_len(cs, pos) {
        Some((n, p)) => if p + n <= cs.len() {
            Some((cs.subrange(p, p + n), p + n))
        } else {
            None
        },
        None => None,
    }
}

/// Reads an input descriptor.
pub open spec fn dec_kind(cs: Seq<char>, pos: int) -> Option<(InputKind, int)>
    decreases cs.len() - pos,
{
    if 0 <= pos < cs.len() {
        let c = cs[pos];
        if c == 'n' {
            Some((InputKind::Nothing, pos + 1))
        } else if c == 'o' {
            Some((InputKind::Object, pos + 1))
        } else if c == 's' {
            Some((InputKind::Text, pos + 1))
        } else if c == 'd' {
            Some((InputKind::Number, pos + 1))
        } else if c == 'l' {
            match dec_kind(cs, pos + 1) {
                Some((k, p)) => Some((InputKind::List(Box::new(k)), p)),
                None => None,
            }
        } else {
            None
        }
    } else {
        None
    }
}

/// Reads a function record.
pub open spec fn dec_function(cs: Seq<char>, pos: int) -> Option<(FunctionText, int)> {
    match dec_u128(cs, pos) {
        Some((idv, p1)) => match dec_text(cs, p1) {
            Some((name, p2)) => match dec_text(cs, p2) {
                Some((description, p3)) => match dec_len(cs, p3) {
                    Some((secs, p4)) => if p4 < cs.len() && cs[p4] == 'w' {
                        match dec_kind(cs, p4 + 1) {
                            Some((kind, p5)) => match dec_text(cs, p5) {
                                Some((blob, p6)) => Some(
                                    (
                                        FunctionText {
                                            id: FunctionId(crate::types::Id { value: idv }),
                                            name,
                                            description,
                                            create_time: TimeStamp { secs },
                                            runtime: Runtime::Wasm,
                                            input_type: kind,
                                            blob_address: blob,
                                        },
                                        p6,
                                    ),
                                ),
                                None => None,
                            },
                            None => None,
                        }
                    } else {
                        None
                    },
                    None => None,
                },
                None => None,
            },
            None => None,
        },
        None => None,
    }
}

/// Reads one binding.
pub open spec fn dec_entry(cs: Seq<char>, pos: int) -> Option<(PathEntryText, int)> {
    match dec_text(cs, pos) {
        Some((root, p1)) => match dec_text(cs, p1) {
            Some((sub_path, p2)) => match dec_function(cs, p2) {
                Some((function, p3)) => Some((PathEntryText { root, sub_path, function }, p3)),
                None => None,
            },
            None => None,
        },
        None => None,
    }
}

/// Reads `count` bindings in order.
pub open spec fn dec_entry_seq(cs: Seq<char>, pos: int, count: nat) -> Option<
    (Seq<PathEntryText>, int),
>
    decreases count,
{
    if count == 0 {
        Some((Seq::empty(), pos))
    } else {
        match dec_entry(cs, pos) {
            Some((e, p)) => match dec_entry_seq(cs, p, (count - 1) as nat) {
                Some((rest, q)) => Some((seq![e] + rest, q)),
                None => None,
            },
            None => None,
        }
    }
}

/// Reads a whole table.
pub open spec fn dec_entries(cs: Seq<char>, pos: int) -> Option<(Seq<PathEntryText>, int)> {
    match dec_len(cs, pos) {
        Some((n, p)) => dec_entry_seq(cs, p, n as nat),
        None => None,
    }
}

/// A window of a concatenation splits into windows of its parts.
proof fn lemma_split_window(cs: Seq<char>, pos: int, a: Seq<char>, b: Seq<char>)
    requires
        0 <= pos,
        pos + a.len() + b.len() <= cs.len(),
        cs.subrange(pos, pos + a.len() + b.len()) == a + b,
    ensures
        cs.subrange(pos, pos + a.len()) =~= a,
        cs.subrange(pos + a.len(), pos + a.len() + b.len()) =~= b,
{
    let w = cs.subrange(pos, pos + a.len() + b.len());
    assert forall|j: int| 0 <= j < a.len() implies cs.subrange(pos, pos + a.len())[j] == a[j] by {
        assert(w[j] == (a + b)[j]);
    }
    assert forall|j: int|
        0 <= j < b.len() implies cs.subrange(pos + a.len(), pos + a.len() + b.len())[j]
        == b[j] by {
        assert(w[a.len() + j] == (a + b)[a.len() + j]);
    }
}

/// A 20-digit numeral reads back as the number it renders.
proof fn lemma_dec_len_at(cs: Seq<char>, pos: int, n: nat)
    requires
        0 <= pos,
        n <= u64::MAX,
        pos + 20 <= cs.len(),
        cs.subrange(pos, pos + 20) == enc_len(n),
    ensures
        dec_len(cs, pos) == Some(((n as u64), pos + 20)),
{
    lemma_render_parse(n, 10, 20);
    assert(pow(10, 20) == 100000000000000000000) by {
        reveal_with_fuel(pow, 21);
    }
    lemma_small_mod(n, pow(10, 20) as nat);
    assert(spec_parse_digits(enc_len(n), 10, 20) == Some(n));
}

/// A 32-digit numeral reads back as the identifier it renders.
proof fn lemma_dec_u128_at(cs: Seq<char>, pos: int, v: u128)
    requires
        0 <= pos,
        pos + 32 <= cs.len(),
        cs.subrange(pos, pos + 32) == enc_u128(v),
    ensures
        dec_u128(cs, pos) == Some((v, pos + 32)),
{
    lemma_render_parse(v as nat, 16, 32);
    assert(pow(16, 32) == 0x100000000000000000000000000000000) by {
        reveal_with_fuel(pow, 33);
    }
    lemma_small_mod(v as nat, pow(16, 32) as nat);
    assert(spec_parse_digits(enc_u128(v), 16, 32) == Some(v as nat));
}

/// A length-prefixed text reads back verbatim.
proof fn lemma_dec_text_at(cs: Seq<char>, pos: int, s: Seq<char>)
    requires
        0 <= pos,
        s.len() <= u64::MAX,
        pos + 20 + s.len() <= cs.len(),
        cs.subrange(pos, pos + 20 + s.len()) == enc_text(s),
    ensures
        dec_text(cs, pos) == Some((s, pos + 20 + s.len())),
{
    lemma_digits_len(s.len(), 10, 20);
    assert(enc_len(s.len()).len() == 20);
    lemma_split_window(cs, pos, enc_len(s.len()), s);
    lemma_dec_len_at(cs, pos, s.len());
    assert(cs.subrange(pos + 20, pos + 20 + s.len()) =~= s);
}

/// Every encoded descriptor is at least its tag long.
proof fn lemma_enc_kind_len(k: InputKind)
    ensures
        enc_kind(k).len() >= 1,
    decreases k,
{
    match k {
        InputKind::List(inner) => {
            lemma_enc_kind_len(*inner);
        },
        _ => {},
    }
}

/// An input descriptor reads back as itself.
proof fn lemma_dec_kind_at(cs: Seq<char>, pos: int, k: InputKind)
    requires
        0 <= pos,
        pos + enc_kind(k).len() <= cs.len(),
        cs.subrange(pos, pos + enc_kind(k).len()) == enc_kind(k),
    ensures
        dec_kind(cs, pos) == Some((k, pos + enc_kind(k).len())),
    decreases k,
{
    lemma_enc_kind_len(k);
    let e = enc_kind(k);
    assert(cs[pos] == e[0]) by {
        assert(cs.subrange(pos, pos + e.len())[0] == e[0]);
    }
    match k {
        InputKind::Nothing => {},
        InputKind::Object => {},
        InputKind::Text => {},
        InputKind::Number => {},
        InputKind::List(inner) => {
            lemma_enc_kind_len(*inner);
            lemma_split_window(cs, pos, seq!['l'], enc_kind(*inner));
            lemma_dec_kind_at(cs, pos + 1, *inner);
        },
    }
}

/// A function record reads back as its textual content.
proof fn lemma_dec_function_at(cs: Seq<char>, pos: int, f: Function)
    requires
        0 <= pos,
        f.name@.len() <= u64::MAX,
        f.description@.len() <= u64::MAX,
        f.blob_address.location@.len() <= u64::MAX,
        pos + enc_function(f).len() <= cs.len(),
        cs.subrange(pos, pos + enc_function(f).len()) == enc_function(f),
    ensures
        dec_function(cs, pos) == Some((function_text(f), pos + enc_function(f).len())),
{
    let a1 = enc_u128(f.id.0.value);
    let a2 = enc_text(f.name@);
    let a3 = enc_text(f.description@);
    let a4 = enc_len(f.create_time.secs as nat);
    let a5 = seq!['w'];
    let a6 = enc_kind(f.input_type);
    let a7 = enc_text(f.blob_address.location@);
    lemma_digits_len(f.id.0.value as nat, 16, 32);
    lemma_digits_len(f.name@.len(), 10, 20);
    lemma_digits_len(f.description@.len(), 10, 20);
    lemma_digits_len(f.create_time.secs as nat, 10, 20);
    lemma_digits_len(f.blob_address.location@.len(), 10, 20);
    lemma_enc_kind_len(f.input_type);
    let p1 = pos + a1.len();
    let p2 = p1 + a2.len();
    let p3 = p2 + a3.len();
    let p4 = p3 + a4.len();
    let p5 = p4 + 1;
    let p6 = p5 + a6.len();
    let p7 = p6 + a7.len();
    assert(enc_function(f) == a1 + a2 + a3 + a4 + a5 + a6 + a7);
    assert(cs.subrange(pos, p7) == ((((((a1 + a2) + a3) + a4) + a5) + a6) + a7));
    lemma_split_window(cs, pos, (((((a1 + a2) + a3) + a4) + a5) + a6), a7);
    lemma_split_window(cs, pos, ((((a1 + a2) + a3) + a4) + a5), a6);
    lemma_split_window(cs, pos, (((a1 + a2) + a3) + a4), a5);
    lemma_split_window(cs, pos, ((a1 + a2) + a3), a4);
    lemma_split_window(cs, pos, (a1 + a2), a3);
    lemma_split_window(cs, pos, a1, a2);
    lemma_dec_u128_at(cs, pos, f.id.0.value);
    lemma_dec_text_at(cs, p1, f.name@);
    lemma_dec_text_at(cs, p2, f.description@);
    lemma_dec_len_at(cs, p3, f.create_time.secs as nat);
    assert(cs[p4] == 'w') by {
        assert(cs.subrange(p4, p5)[0] == a5[0]);
    }
    lemma_dec_kind_at(cs, p5, f.input_type);
    lemma_dec_text_at(cs, p6, f.blob_address.location@);
}

/// One binding reads back as its textual content.
proof fn lemma_dec_entry_at(cs: Seq<char>, pos: int, e: PathEntry)
    requires
        0 <= pos,
        entry_fits(e),
        pos + enc_entry(e).len() <= cs.len(),
        cs.subrange(pos, pos + enc_entry(e).len()) == enc_entry(e),
    ensures
        dec_entry(cs, pos) == Some((entry_text(e), pos + enc_entry(e).len())),
{
    let a1 = enc_text(e.root.0@);
    let a2 = enc_text(e.sub_path.0@);
    let a3 = enc_function(e.function);
    lemma_digits_len(e.root.0@.len(), 10, 20);
    lemma_digits_len(e.sub_path.0@.len(), 10, 20);
    let p1 = pos + a1.len();
    let p2 = p1 + a2.len();
    let p3 = p2 + a3.len();
    assert(cs.subrange(pos, p3) == ((a1 + a2) + a3));
    lemma_split_window(cs, pos, (a1 + a2), a3);
    lemma_split_window(cs, pos, a1, a2);
    lemma_dec_text_at(cs, pos, e.root.0@);
    lemma_dec_text_at(cs, p1, e.sub_path.0@);
    lemma_dec_function_at(cs, p2, e.function);
}

/// A run of bindings reads back as its textual contents, in order.
proof fn lemma_dec_entry_seq_at(cs: Seq<char>, pos: int, s: Seq<PathEntry>)
    requires
        0 <= pos,
        forall|i: int| 0 <= i < s.len() ==> entry_fits(#[trigger] s[i]),
        pos + enc_entry_seq(s).len() <= cs.len(),
        cs.subrange(pos, pos + enc_entry_seq(s).len()) == enc_entry_seq(s),
    ensures
        dec_entry_seq(cs, pos, s.len()) == Some(
            (s.map_values(|e: PathEntry| entry_text(e)), pos + enc_entry_seq(s).len()),
        ),
    decreases s.len(),
{
    if s.len() == 0 {
        assert(s.map_values(|e: PathEntry| entry_text(e)) =~= Seq::<PathEntryText>::empty());
        assert(cs.subrange(pos, pos) =~= Seq::<char>::empty());
    } else {
        let tail = s.subrange(1, s.len() as int);
        let a = enc_entry(s[0]);
        let b = enc_entry_seq(tail);
        assert(enc_entry_seq(s) == a + b);
        lemma_split_window(cs, pos, a, b);
        lemma_dec_entry_at(cs, pos, s[0]);
        lemma_dec_entry_seq_at(cs, pos + a.len(), tail);
        assert(s.map_values(|e: PathEntry| entry_text(e)) =~= seq![entry_text(s[0])]
            + tail.map_values(|e: PathEntry| entry_text(e)));
    }
}

/// Decoding an encoded routing table yields the same bindings: every path
/// level, every identifier, every name, stamp, descriptor and locator reads
/// back exactly, in order.
pub proof fn lemma_entries_round_trip(s: Seq<PathEntry>)
    requires
        s.len() <= u64::MAX,
        forall|i: int| 0 <= i < s.len() ==> entry_fits(#[trigger] s[i]),
    ensures
        dec_entries(enc_entries(s), 0) == Some(
            (s.map_values(|e: PathEntry| entry_text(e)), enc_entries(s).len() as int),
        ),
{
    let cs = enc_entries(s);
    lemma_digits_len(s.len(), 10, 20);
    assert(enc_len(s.len()).len() == 20);
    assert(cs.subrange(0, cs.len() as int) =~= cs);
    lemma_split_window(cs, 0, enc_len(s.len()), enc_entry_seq(s));
    lemma_dec_len_at(cs, 0, s.len());
    lemma_dec_entry_seq_at(cs, 20, s);
}


/// Appending one binding extends the encoded run at its end.
proof fn lemma_enc_entry_seq_snoc(s: Seq<PathEntry>, e: PathEntry)
    ensures
        enc_entry_seq(s.push(e)) == enc_entry_seq(s) + enc_entry(e),
    decreases s.len(),
{
    let t = s.push(e);
    assert(t.len() == s.len() + 1);
    if s.len() == 0 {
        assert(t[0] == e);
        assert(t.subrange(1, t.len() as int) =~= Seq::<PathEntry>::empty());
        assert(enc_entry_seq(t) == enc_entry(e) + enc_entry_seq(Seq::<PathEntry>::empty()));
        assert(enc_entry_seq(Seq::<PathEntry>::empty()) == Seq::<char>::empty());
        assert(enc_entry_seq(s) == Seq::<char>::empty());
        assert(enc_entry(e) + Seq::<char>::empty() =~= Seq::<char>::empty() + enc_entry(e));
    } else {
        let stail = s.subrange(1, s.len() as int);
        assert(t[0] == s[0]);
        assert(t.subrange(1, t.len() as int) =~= stail.push(e));
        lemma_enc_entry_seq_snoc(stail, e);
        assert(enc_entry_seq(t) == enc_entry(s[0]) + enc_entry_seq(stail.push(e)));
        assert(enc_entry_seq(s) == enc_entry(s[0]) + enc_entry_seq(stail));
        assert(enc_entry(s[0]) + (enc_entry_seq(stail) + enc_entry(e)) =~= (enc_entry(s[0])
            + enc_entry_seq(stail)) + enc_entry(e));
    }
}

/// Appends a 20-digit decimal numeral.
fn push_len(out: &mut String, n: u64)
    ensures
        final(out)@ == old(out)@ + enc_len(n as nat),
{
    let ds = crate::numeral::digits_of(n as u128, 10, 20);
    let t = crate::types::render_digits(&ds);
    out.append(t.as_str());
}

/// Appends a 32-digit hexadecimal numeral.
fn push_u128(out: &mut String, v: u128)
    ensures
        final(out)@ == old(out)@ + enc_u128(v),
{
    let ds = crate::numeral::digits_of(v, 16, 32);
    let t = crate::types::render_digits(&ds);
    out.append(t.as_str());
}

/// Appends a length-prefixed text.
fn push_text(out: &mut String, s: &String)
    ensures
        final(out)@ == old(out)@ + enc_text(s@),
{
    let n = s.as_str().unicode_len();
    push_len(out, n as u64);
    out.append(s.as_str());
    proof {
        assert(out@ =~= old(out)@ + enc_text(s@));
    }
}

/// Appends an input descriptor, one tag character per node.
fn push_kind(out: &mut String, k: &InputKind)
    ensures
        final(out)@ == old(out)@ + enc_kind(*k),
    decreases k,
{
    match k {
        InputKind::Nothing => {
            out.append("n");
            proof {
                reveal_strlit("n");
                assert(out@ =~= old(out)@ + enc_kind(*k));
            }
        },
        InputKind::Object => {
            out.append("o");
            proof {
                reveal_strlit("o");
                assert(out@ =~= old(out)@ + enc_kind(*k));
            }
        },
        InputKind::Text => {
            out.append("s");
            proof {
                reveal_strlit("s");
                assert(out@ =~= old(out)@ + enc_kind(*k));
            }
        },
        InputKind::Number => {
            out.append("d");
            proof {
                reveal_strlit("d");
                assert(out@ =~= old(out)@ + enc_kind(*k));
            }
        },
        InputKind::List(inner) => {
            out.append("l");
            proof {
                reveal_strlit("l");
            }
            push_kind(out, inner);
            proof {
                assert(out@ =~= old(out)@ + enc_kind(*k));
            }
        },
    }
}

/// Appends a function record.
fn push_function(out: &mut String, f: &Function)
    ensures
        final(out)@ == old(out)@ + enc_function(*f),
{
    push_u128(out, f.id.0.value);
    push_text(out, &f.name);
    push_text(out, &f.description);
    push_len(out, f.create_time.secs);
    out.append("w");
    proof {
        reveal_strlit("w");
    }
    push_kind(out, &f.input_type);
    push_text(out, &f.blob_address.location);
    proof {
        assert(out@ =~= old(out)@ + enc_function(*f));
    }
}

/// Appends one binding.
fn push_entry(out: &mut String, e: &PathEntry)
    ensures
        final(out)@ == old(out)@ + enc_entry(*e),
{
    push_text(out, &e.root.0);
    push_text(out, &e.sub_path.0);
    push_function(out, &e.function);
    proof {
        assert(out@ =~= old(out)@ + enc_entry(*e));
    }
}

/// Renders a routing table as text: its size, then each binding in order.
pub fn encode_entries(entries: &Vec<PathEntry>) -> (r: String)
    ensures
        r@ == enc_entries(entries@),
{
    let mut out = String::new();
    push_len(&mut out, entries.len() as u64);
    let n = entries.len();
    let mut i: usize = 0;
    while i < n
        invariant
            n == entries.len(),
            i <= n,
            out@ =~= enc_len(entries@.len()) + enc_entry_seq(entries@.subrange(0, i as int)),
        decreases n - i,
    {
        let ghost pre = entries@.subrange(0, i as int);
        push_entry(&mut out, &entries[i]);
        proof {
            assert(entries@.subrange(0, i + 1 as int) =~= pre.push(entries@[i as int]));
            lemma_enc_entry_seq_snoc(pre, entries@[i as int]);
            assert(out@ =~= enc_len(entries@.len()) + enc_entry_seq(
                entries@.subrange(0, i + 1 as int),
            ));
        }
        i = i + 1;
    }
    proof {
        assert(entries@.subrange(0, n as int) =~= entries@);
    }
    out
}

/// Reads a 20-digit decimal numeral from a position.
fn read_len(s: &str, pos: usize) -> (r: Option<(u64, usize)>)
    ensures
        (match r {
            Some((v, p)) => dec_len(s@, pos as int) == Some((v, p as int)),
            None => dec_len(s@, pos as int) is None,
        }),
{
    let n = s.unicode_len();
    if pos >= n {
        return None;
    }
    if n - pos < 20 {
        return None;
    }
    let w = s.substring_char(pos, pos + 20);
    match crate::types::parse_digits(w, 10, 20) {
        Some(v) => {
            if v <= u64::MAX as u128 {
                Some(((v as u64), pos + 20))
            } else {
                None
            }
        },
        None => None,
    }
}

/// Reads a 32-digit hexadecimal numeral from a position.
fn read_u128(s: &str, pos: usize) -> (r: Option<(u128, usize)>)
    ensures
        (match r {
            Some((v, p)) => dec_u128(s@, pos as int) == Some((v, p as int)),
            None => dec_u128(s@, pos as int) is None,
        }),
{
    let n = s.unicode_len();
    if pos >= n {
        return None;
    }
    if n - pos < 32 {
        return None;
    }
    let w = s.substring_char(pos, pos + 32);
    match crate::types::parse_digits(w, 16, 32) {
        Some(v) => Some((v, pos + 32)),
        None => None,
    }
}

/// Reads a length-prefixed text from a position.
fn read_text(s: &str, pos: usize) -> (r: Option<(String, usize)>)
    ensures
        (match r {
            Some((t, p)) => dec_text(s@, pos as int) == Some((t@, p as int)),
            None => dec_text(s@, pos as int) is None,
        }),
{
    match read_len(s, pos) {
        Some((v, p)) => {
            let n = s.unicode_len();
            if v > (n - p) as u64 {
                None
            } else {
                let len = v as usize;
                let w = s.substring_char(p, p + len);
                Some((w.to_owned(), p + len))
            }
        },
        None => None,
    }
}

/// Reads an input descriptor from a position.
fn read_kind(s: &str, pos: usize) -> (r: Option<(InputKind, usize)>)
    ensures
        (match r {
            Some((k, p)) => dec_kind(s@, pos as int) == Some((k, p as int)),
            None => dec_kind(s@, pos as int) is None,
        }),
    decreases s@.len() - pos,
{
    let n = s.unicode_len();
    if pos >= n {
        return None;
    }
    let c = s.get_char(pos);
    if c == 'n' {
        Some((InputKind::Nothing, pos + 1))
    } else if c == 'o' {
        Some((InputKind::Object, pos + 1))
    } else if c == 's' {
        Some((InputKind::Text, pos + 1))
    } else if c == 'd' {
        Some((InputKind::Number, pos + 1))
    } else if c == 'l' {
        match read_kind(s, pos + 1) {
            Some((k, p)) => Some((InputKind::List(Box::new(k)), p)),
            None => None,
        }
    } else {
        None
    }
}

/// Reads a function record from a position.
fn read_function(s: &str, pos: usize) -> (r: Option<(Function, usize)>)
    ensures
        (match r {
            Some((f, p)) => dec_function(s@, pos as int) == Some((function_text(f), p as int)),
            None => dec_function(s@, pos as int) is None,
        }),
{
    let (idv, p1) = match read_u128(s, pos) {
        Some(x) => x,
        None => {
            return None;
        },
    };
    let (name, p2) = match read_text(s, p1) {
        Some(x) => x,
        None => {
            return None;
        },
    };
    let (description, p3) = match read_text(s, p2) {
        Some(x) => x,
        None => {
            return None;
        },
    };
    let (secs, p4) = match read_len(s, p3) {
        Some(x) => x,
        None => {
            return None;
        },
    };
    let n = s.unicode_len();
    if p4 >= n {
        return None;
    }
    if s.get_char(p4) != 'w' {
        return None;
    }
    let (kind, p5) = match read_kind(s, p4 + 1) {
        Some(x) => x,
        None => {
            return None;
        },
    };
    let (blob, p6) = match read_text(s, p5) {
        Some(x) => x,
        None => {
            return None;
        },
    };
    let f = Function {
        id: FunctionId(crate::types::Id { value: idv }),
        name,
        description,
        create_time: TimeStamp { secs },
        runtime: Runtime::Wasm,
        input_type: kind,
        blob_address: crate::types::BlobAddress { location: blob },
    };
    Some((f, p6))
}

/// Reads one binding from a position.
fn read_entry(s: &str, pos: usize) -> (r: Option<(PathEntry, usize)>)
    ensures
        (match r {
            Some((e, p)) => dec_entry(s@, pos as int) == Some((entry_text(e), p as int)),
            None => dec_entry(s@, pos as int) is None,
        }),
{
    let (root, p1) = match read_text(s, pos) {
        Some(x) => x,
        None => {
            return None;
        },
    };
    let (sub_path, p2) = match read_text(s, p1) {
        Some(x) => x,
        None => {
            return None;
        },
    };
    let (function, p3) = match read_function(s, p2) {
        Some(x) => x,
        None => {
            return None;
        },
    };
    Some((PathEntry::new(crate::catalog::Root(root), crate::catalog::SubPath(sub_path), function), p3))
}

/// Reads a whole routing table back: its size, then that many bindings,
/// with nothing left over.
pub fn decode_entries(s: &str) -> (r: Option<Vec<PathEntry>>)
    ensures
        (match r {
            Some(v) => (match dec_entries(s@, 0) {
                Some((ts, p)) => p == s@.len() && v@.map_values(
                    |e: PathEntry| entry_text(e),
                ) == ts,
                None => false,
            }),
            None => (match dec_entries(s@, 0) {
                Some((ts, p)) => p != s@.len(),
                None => true,
            }),
        }),
{
    let (count, p0) = match read_len(s, 0) {
        Some(x) => x,
        None => {
            return None;
        },
    };
    let mut out: Vec<PathEntry> = Vec::new();
    let mut cur: usize = p0;
    let mut i: u64 = 0;
    proof {
        assert(out@.map_values(|e: PathEntry| entry_text(e)) =~= Seq::<PathEntryText>::empty());
    }
    while i < count
        invariant
            i <= count,
            cur <= s@.len(),
            out@.len() == i,
            dec_len(s@, 0) == Some((count, p0 as int)),
            (match dec_entry_seq(s@, cur as int, (count - i) as nat) {
                Some((rest, end)) => dec_entry_seq(s@, p0 as int, count as nat) == Some(
                    (out@.map_values(|e: PathEntry| entry_text(e)) + rest, end),
                ),
                None => dec_entry_seq(s@, p0 as int, count as nat) is None,
            }),
        decreases count - i,
    {
        let ghost pre = out@.map_values(|e: PathEntry| entry_text(e));
        let ghost m = (count - i) as nat;
        let (entry, next) = match read_entry(s, cur) {
            Some(x) => x,
            None => {
                return None;
            },
        };
        proof {
            assert(dec_entry(s@, cur as int) == Some((entry_text(entry), next as int)));
        }
        out.push(entry);
        proof {
            assert(out@.map_values(|e: PathEntry| entry_text(e)) =~= pre.push(entry_text(entry)));
            match dec_entry_seq(s@, next as int, (m - 1) as nat) {
                Some((rest, end)) => {
                    assert(dec_entry_seq(s@, cur as int, m) == Some(
                        (seq![entry_text(entry)] + rest, end),
                    ));
                    assert(pre + (seq![entry_text(entry)] + rest) =~= pre.push(entry_text(entry))
                        + rest);
                },
                None => {
                    assert(dec_entry_seq(s@, cur as int, m) is None);
                },
            }
            // the next position stays inside the text
            lemma_dec_entry_in_range(s@, cur as int);
        }
        cur = next;
        i = i + 1;
    }
    proof {
        assert(dec_entry_seq(s@, cur as int, 0) == Some(
            (Seq::<PathEntryText>::empty(), cur as int),
        ));
        assert(out@.map_values(|e: PathEntry| entry_text(e)) + Seq::<PathEntryText>::empty()
            =~= out@.map_values(|e: PathEntry| entry_text(e)));
    }
    let n = s.unicode_len();
    if cur == n {
        Some(out)
    } else {
        None
    }
}

/// A successful read of an input descriptor lands inside the text.
proof fn lemma_dec_kind_in_range(cs: Seq<char>, pos: int)
    ensures
        (match dec_kind(cs, pos) {
            Some((k, p)) => pos < p <= cs.len(),
            None => true,
        }),
    decreases cs.len() - pos,
{
    if 0 <= pos < cs.len() && cs[pos] == 'l' {
        lemma_dec_kind_in_range(cs, pos + 1);
    }
}

/// A successful read of one binding lands inside the text.
proof fn lemma_dec_entry_in_range(cs: Seq<char>, pos: int)
    ensures
        (match dec_entry(cs, pos) {
            Some((e, p)) => p <= cs.len(),
            None => true,
        }),
{
    match dec_text(cs, pos) {
        Some((_, p1)) => {
            match dec_text(cs, p1) {
                Some((_, p2)) => {
                    match dec_u128(cs, p2) {
                        Some((_, q1)) => {
                            match dec_text(cs, q1) {
                                Some((_, q2)) => {
                                    match dec_text(cs, q2) {
                                        Some((_, q3)) => {
                                            match dec_len(cs, q3) {
                                                Some((_, q4)) => {
                                                    lemma_dec_kind_in_range(cs, q4 + 1);
                                                },
                                                None => {},
                                            }
                                        },
                                        None => {},
                                    }
                                },
                                None => {},
                            }
                        },
                        None => {},
                    }
                },
                None => {},
            }
        },
        None => {},
    }
}

} // verus!
