//! The wire codec: envelopes to bytes and back.
//!
//! The format is compact JSON with a fixed field order and string escaping,
//! one object per envelope.  `enc_envelope` is the single source of truth
//! for what goes on the wire; `s_parse_envelope` is the exact meaning of
//! `decode_envelope`, which accepts precisely the canonical encodings and
//! returns `None` for everything else — malformed or foreign traffic on the
//! shared topic is expected and dropped.  A response and a request can never
//! be confused: the parser commits to the response shape as soon as a
//! `data` field follows the mode, and to the request shape otherwise.
//!
//! Byte constants are ASCII: `34` is the double quote, `92` the backslash,
//! `123`/`125` the braces, `91`/`93` the brackets, `44` the comma, `48` the
//! digit zero.

use vstd::prelude::*;

use crate::catalog::RecordModel;
use crate::envelope::EnvelopeModel;
use crate::envelope::ListModeModel;

verus! {

// ---------------------------------------------------------------------------
// Tokens: the fixed byte strings of the format.
// ---------------------------------------------------------------------------
/// `{"mode":`
pub open spec fn tok_obj_mode() -> Seq<u8> {
    seq![123u8, 34, 109, 111, 100, 101, 34, 58]
}

/// `"ALL"`
pub open spec fn tok_all() -> Seq<u8> {
    seq![34u8, 65, 76, 76, 34]
}

/// `{"One":`
pub open spec fn tok_obj_one() -> Seq<u8> {
    seq![123u8, 34, 79, 110, 101, 34, 58]
}

/// `,"data":`
pub open spec fn tok_data() -> Seq<u8> {
    seq![44u8, 34, 100, 97, 116, 97, 34, 58]
}

/// `,"receiver":`
pub open spec fn tok_receiver() -> Seq<u8> {
    seq![44u8, 34, 114, 101, 99, 101, 105, 118, 101, 114, 34, 58]
}

/// `{"id":`
pub open spec fn tok_obj_id() -> Seq<u8> {
    seq![123u8, 34, 105, 100, 34, 58]
}

/// `,"name":`
pub open spec fn tok_name() -> Seq<u8> {
    seq![44u8, 34, 110, 97, 109, 101, 34, 58]
}

/// `,"ingredients":`
pub open spec fn tok_ingredients() -> Seq<u8> {
    seq![44u8, 34, 105, 110, 103, 114, 101, 100, 105, 101, 110, 116, 115, 34, 58]
}

/// `,"instructions":`
pub open spec fn tok_instructions() -> Seq<u8> {
    seq![44u8, 34, 105, 110, 115, 116, 114, 117, 99, 116, 105, 111, 110, 115, 34, 58]
}

/// `,"public":`
pub open spec fn tok_public() -> Seq<u8> {
    seq![44u8, 34, 112, 117, 98, 108, 105, 99, 34, 58]
}

/// `true`
pub open spec fn tok_true() -> Seq<u8> {
    seq![116u8, 114, 117, 101]
}

/// `false`
pub open spec fn tok_false() -> Seq<u8> {
    seq![102u8, 97, 108, 115, 101]
}

// ---------------------------------------------------------------------------
// The encoding, as spec functions.
// ---------------------------------------------------------------------------
/// The decimal digits of `n`, most significant first, no leading zero.
pub open spec fn enc_digits(n: nat) -> Seq<u8>
    decreases n,
{
    if n < 10 {
        seq![(48 + n) as u8]
    } else {
        enc_digits(n / 10).push((48 + n % 10) as u8)
    }
}

/// How one byte of string content appears on the wire: itself, a two-byte
/// escape, or a six-byte `\u00xx` escape for the remaining control bytes.
pub open spec fn esc_byte(b: u8) -> Seq<u8> {
    if b == 34 {
        seq![92u8, 34]
    } else if b == 92 {
        seq![92u8, 92]
    } else if b == 8 {
        seq![92u8, 98]  // \b
    } else if b == 9 {
        seq![92u8, 116]  // \t
    } else if b == 10 {
        seq![92u8, 110]  // \n
    } else if b == 12 {
        seq![92u8, 102]  // \f
    } else if b == 13 {
        seq![92u8, 114]  // \r
    } else if b < 32 {
        seq![92u8, 117, 48, 48, hex_digit((b / 16) as nat), hex_digit((b % 16) as nat)]
    } else {
        seq![b]
    }
}

/// The lowercase hexadecimal digit for a value below sixteen.
pub open spec fn hex_digit(d: nat) -> u8 {
    if d < 10 {
        (48 + d) as u8
    } else {
        (87 + d) as u8
    }
}

/// A whole string body, escaped byte by byte.
pub open spec fn esc(s: Seq<u8>) -> Seq<u8>
    decreases s.len(),
{
    if s.len() == 0 {
        Seq::empty()
    } else {
        esc_byte(s.first()) + esc(s.drop_first())
    }
}

/// A JSON string: quote, escaped body, quote.
pub open spec fn enc_string(s: Seq<u8>) -> Seq<u8> {
    seq![34u8] + esc(s) + seq![34u8]
}

pub open spec fn enc_bool(b: bool) -> Seq<u8> {
    if b {
        tok_true()
    } else {
        tok_false()
    }
}

pub open spec fn enc_mode(m: ListModeModel) -> Seq<u8> {
    match m {
        ListModeModel::All => tok_all(),
        ListModeModel::One(p) => tok_obj_one() + enc_string(p) + seq![125u8],
    }
}

pub open spec fn enc_record(r: RecordModel) -> Seq<u8> {
    tok_obj_id() + enc_digits(r.id as nat) + tok_name() + enc_string(r.name) + tok_ingredients()
        + enc_string(r.ingredients) + tok_instructions() + enc_string(r.instructions)
        + tok_public() + enc_bool(r.public) + seq![125u8]
}

/// The comma-separated record list, without the surrounding brackets.
pub open spec fn enc_records_inner(rs: Seq<RecordModel>) -> Seq<u8>
    decreases rs.len(),
{
    if rs.len() == 0 {
        Seq::empty()
    } else if rs.len() == 1 {
        enc_record(rs.first())
    } else {
        enc_record(rs.first()) + seq![44u8] + enc_records_inner(rs.drop_first())
    }
}

pub open spec fn enc_records(rs: Seq<RecordModel>) -> Seq<u8> {
    seq![91u8] + enc_records_inner(rs) + seq![93u8]
}

/// The canonical wire form of an envelope.
pub open spec fn enc_envelope(e: EnvelopeModel) -> Seq<u8> {
    match e {
        EnvelopeModel::Request { mode } => tok_obj_mode() + enc_mode(mode) + seq![125u8],
        EnvelopeModel::Response { mode, data, receiver } => tok_obj_mode() + enc_mode(mode)
            + tok_data() + enc_records(data) + tok_receiver() + enc_string(receiver)
            + seq![125u8],
    }
}

// ---------------------------------------------------------------------------
// The encoder.
// ---------------------------------------------------------------------------
/// Escaping one byte more extends the escaped body at its end.
proof fn lemma_esc_push(s: Seq<u8>, b: u8)
    ensures
        esc(s.push(b)) == esc(s) + esc_byte(b),
    decreases s.len(),
{
    if s.len() == 0 {
        let t = s.push(b);
        assert(t.first() == b);
        assert(t.drop_first() =~= Seq::<u8>::empty());
        assert(esc(t.drop_first()) =~= Seq::<u8>::empty());
        assert(esc(t) == esc_byte(b) + esc(t.drop_first()));
        assert(esc(s) =~= Seq::<u8>::empty());
        assert(esc(t) =~= esc(s) + esc_byte(b));
    } else {
        assert(s.push(b).drop_first() =~= s.drop_first().push(b));
        lemma_esc_push(s.drop_first(), b);
        assert(s.push(b).first() == s.first());
        assert(esc(s.push(b)) == esc_byte(s.first()) + esc(s.drop_first().push(b)));
        assert(esc(s) == esc_byte(s.first()) + esc(s.drop_first()));
        assert(esc_byte(s.first()) + (esc(s.drop_first()) + esc_byte(b)) =~= (esc_byte(s.first())
            + esc(s.drop_first())) + esc_byte(b));
    }
}

/// Appends the decimal digits of `n`.
fn append_digits(out: &mut Vec<u8>, n: u64)
    ensures
        final(out)@ == old(out)@ + enc_digits(n as nat),
    decreases n,
{
    let ghost out0 = out@;
    if n < 10 {
        out.push(48 + n as u8);
        proof {
            assert(out@ =~= out0 + enc_digits(n as nat));
        }
    } else {
        append_digits(out, n / 10);
        out.push(48 + (n % 10) as u8);
        proof {
            assert(out@ =~= out0 + enc_digits(n as nat));
        }
    }
}

/// Appends one string-content byte in its escaped form.
fn append_escaped_byte(out: &mut Vec<u8>, b: u8)
    ensures
        final(out)@ == old(out)@ + esc_byte(b),
{
    let ghost out0 = out@;
    if b == 34 || b == 92 {
        out.push(92);
        out.push(b);
    } else if b == 8 {
        out.push(92);
        out.push(98);
    } else if b == 9 {
        out.push(92);
        out.push(116);
    } else if b == 10 {
        out.push(92);
        out.push(110);
    } else if b == 12 {
        out.push(92);
        out.push(102);
    } else if b == 13 {
        out.push(92);
        out.push(114);
    } else if b < 32 {
        out.push(92);
        out.push(117);
        out.push(48);
        out.push(48);
        let hi = b / 16;
        let lo = b % 16;
        out.push(
            if hi < 10 {
                48 + hi
            } else {
                87 + hi
            },
        );
        out.push(
            if lo < 10 {
                48 + lo
            } else {
                87 + lo
            },
        );
    } else {
        out.push(b);
    }
    proof {
        assert(out@ =~= out0 + esc_byte(b));
    }
}

/// Appends a quoted, escaped JSON string.
fn append_string(out: &mut Vec<u8>, s: &[u8])
    ensures
        final(out)@ == old(out)@ + enc_string(s@),
{
    let ghost out0 = out@;
    out.push(34);
    let mut i: usize = 0;
    while i < s.len()
        invariant
            i <= s@.len(),
            out@ == out0 + seq![34u8] + esc(s@.take(i as int)),
        decreases s@.len() - i,
    {
        append_escaped_byte(out, s[i]);
        proof {
            assert(s@.take(i + 1) =~= s@.take(i as int).push(s@[i as int]));
            lemma_esc_push(s@.take(i as int), s@[i as int]);
            assert(out@ =~= out0 + seq![34u8] + esc(s@.take(i + 1)));
        }
        i += 1;
    }
    out.push(34);
    proof {
        assert(s@.take(s@.len() as int) =~= s@);
        assert(out@ =~= out0 + enc_string(s@));
    }
}

/// Appends `true` or `false`.
fn append_bool(out: &mut Vec<u8>, b: bool)
    ensures
        final(out)@ == old(out)@ + enc_bool(b),
{
    let ghost out0 = out@;
    if b {
        out.push(116);
        out.push(114);
        out.push(117);
        out.push(101);
    } else {
        out.push(102);
        out.push(97);
        out.push(108);
        out.push(115);
        out.push(101);
    }
    proof {
        assert(out@ =~= out0 + enc_bool(b));
    }
}

/// Appends the wire form of a list mode.
fn append_mode(out: &mut Vec<u8>, m: &crate::envelope::ListMode)
    ensures
        final(out)@ == old(out)@ + enc_mode(m@),
{
    let ghost out0 = out@;
    match m {
        crate::envelope::ListMode::All => {
            out.push(34);
            out.push(65);
            out.push(76);
            out.push(76);
            out.push(34);
            proof {
                assert(out@ =~= out0 + enc_mode(m@));
            }
        },
        crate::envelope::ListMode::One(p) => {
            out.push(123);
            out.push(34);
            out.push(79);
            out.push(110);
            out.push(101);
            out.push(34);
            out.push(58);
            append_string(out, p.as_slice());
            out.push(125);
            proof {
                assert(out@ =~= out0 + enc_mode(m@));
            }
        },
    }
}

/// Appends the wire form of one record.
#[verifier::rlimit(100)]
fn append_record(out: &mut Vec<u8>, r: &crate::catalog::Record)
    ensures
        final(out)@ == old(out)@ + enc_record(r@),
{
    let ghost out0 = out@;
    // {"id":
    out.push(123);
    out.push(34);
    out.push(105);
    out.push(100);
    out.push(34);
    out.push(58);
    append_digits(out, r.id);
    // ,"name":
    out.push(44);
    out.push(34);
    out.push(110);
    out.push(97);
    out.push(109);
    out.push(101);
    out.push(34);
    out.push(58);
    append_string(out, r.name.as_slice());
    // ,"ingredients":
    out.push(44);
    out.push(34);
    out.push(105);
    out.push(110);
    out.push(103);
    out.push(114);
    out.push(101);
    out.push(100);
    out.push(105);
    out.push(101);
    out.push(110);
    out.push(116);
    out.push(115);
    out.push(34);
    out.push(58);
    append_string(out, r.ingredients.as_slice());
    // ,"instructions":
    out.push(44);
    out.push(34);
    out.push(105);
    out.push(110);
    out.push(115);
    out.push(116);
    out.push(114);
    out.push(117);
    out.push(99);
    out.push(116);
    out.push(105);
    out.push(111);
    out.push(110);
    out.push(115);
    out.push(34);
    out.push(58);
    append_string(out, r.instructions.as_slice());
    // ,"public":
    out.push(44);
    out.push(34);
    out.push(112);
    out.push(117);
    out.push(98);
    out.push(108);
    out.push(105);
    out.push(99);
    out.push(34);
    out.push(58);
    append_bool(out, r.public);
    out.push(125);
    proof {
        assert(out@ =~= out0 + enc_record(r@));
    }
}

/// Extending the record list extends its comma-joined encoding at the end.
proof fn lemma_records_inner_push(rs: Seq<RecordModel>, r: RecordModel)
    ensures
        rs.len() == 0 ==> enc_records_inner(rs.push(r)) == enc_record(r),
        rs.len() > 0 ==> enc_records_inner(rs.push(r)) == enc_records_inner(rs) + seq![44u8]
            + enc_record(r),
    decreases rs.len(),
{
    if rs.len() == 0 {
        assert(rs.push(r).len() == 1);
        assert(rs.push(r).first() == r);
        assert(enc_records_inner(rs.push(r)) =~= enc_record(r));
    } else {
        assert(rs.push(r).drop_first() =~= rs.drop_first().push(r));
        lemma_records_inner_push(rs.drop_first(), r);
        if rs.len() == 1 {
            assert(enc_records_inner(rs.push(r)) =~= enc_records_inner(rs) + seq![44u8]
                + enc_record(r));
        } else {
            assert(enc_records_inner(rs.push(r)) =~= enc_records_inner(rs) + seq![44u8]
                + enc_record(r));
        }
    }
}

/// Appends the bracketed record list.
fn append_records(out: &mut Vec<u8>, rs: &Vec<crate::catalog::Record>)
    ensures
        final(out)@ == old(out)@ + enc_records(rs.deep_view()),
{
    let ghost out0 = out@;
    let ghost rsv = rs.deep_view();
    out.push(91);
    let mut i: usize = 0;
    while i < rs.len()
        invariant
            i <= rs.len(),
            rsv == rs.deep_view(),
            rsv.len() == rs.len(),
            out@ == out0 + seq![91u8] + enc_records_inner(rsv.take(i as int)),
        decreases rs.len() - i,
    {
        if i > 0 {
            out.push(44);
        }
        append_record(out, &rs[i]);
        proof {
            assert(rsv.take(i + 1) =~= rsv.take(i as int).push(rsv[i as int]));
            assert(rsv[i as int] == rs[i as int]@);
            lemma_records_inner_push(rsv.take(i as int), rsv[i as int]);
            assert(out@ =~= out0 + seq![91u8] + enc_records_inner(rsv.take(i + 1)));
        }
        i += 1;
    }
    out.push(93);
    proof {
        assert(rsv.take(rsv.len() as int) =~= rsv);
        assert(out@ =~= out0 + enc_records(rsv));
    }
}

/// Encodes an envelope into its canonical wire bytes.
#[verifier::rlimit(50)]
pub fn encode_envelope(e: &crate::envelope::Envelope) -> (out: Vec<u8>)
    ensures
        out@ == enc_envelope(e.deep_view()),
{
    let mut out: Vec<u8> = Vec::new();
    // {"mode":
    out.push(123);
    out.push(34);
    out.push(109);
    out.push(111);
    out.push(100);
    out.push(101);
    out.push(34);
    out.push(58);
    match e {
        crate::envelope::Envelope::Request { mode } => {
            append_mode(&mut out, mode);
            out.push(125);
            proof {
                assert(out@ =~= enc_envelope(e.deep_view()));
            }
        },
        crate::envelope::Envelope::Response { mode, data, receiver } => {
            append_mode(&mut out, mode);
            // ,"data":
            out.push(44);
            out.push(34);
            out.push(100);
            out.push(97);
            out.push(116);
            out.push(97);
            out.push(34);
            out.push(58);
            append_records(&mut out, data);
            // ,"receiver":
            out.push(44);
            out.push(34);
            out.push(114);
            out.push(101);
            out.push(99);
            out.push(101);
            out.push(105);
            out.push(118);
            out.push(101);
            out.push(114);
            out.push(34);
            out.push(58);
            append_string(&mut out, receiver.as_slice());
            out.push(125);
            proof {
                assert(out@ =~= enc_envelope(e.deep_view()));
            }
        },
    }
    out
}

// ---------------------------------------------------------------------------
// The meaning of decoding, as spec functions: a strict recursive-descent
// parser over the byte sequence.  Each `Some((value, j))` means the input
// from the given position up to `j` is exactly the encoding of `value`.
// ---------------------------------------------------------------------------
/// The bytes `lit` stand at position `i` of `s`.
pub open spec fn s_match(s: Seq<u8>, i: int, lit: Seq<u8>) -> bool {
    &&& 0 <= i
    &&& i + lit.len() <= s.len()
    &&& s.subrange(i, i + lit.len()) == lit
}

pub open spec fn is_digit(b: u8) -> bool {
    48 <= b <= 57
}

/// A lowercase hexadecimal digit.
pub open spec fn is_hex(b: u8) -> bool {
    (48 <= b <= 57) || (97 <= b <= 102)
}

pub open spec fn hex_val(b: u8) -> u8 {
    if b <= 57 {
        (b - 48) as u8
    } else {
        (b - 87) as u8
    }
}

/// Consumes a run of digits, accumulating their value; fails on overflow.
pub open spec fn s_digits(s: Seq<u8>, i: int, acc: u64) -> Option<(u64, int)>
    decreases s.len() - i,
{
    if 0 <= i < s.len() && is_digit(s[i]) {
        let d = (s[i] - 48) as u64;
        if acc > (u64::MAX - d) / 10 {
            None
        } else {
            s_digits(s, i + 1, (acc * 10 + d) as u64)
        }
    } else {
        Some((acc, i))
    }
}

/// A canonical decimal number: `0`, or a nonzero digit followed by digits.
pub open spec fn s_parse_u64(s: Seq<u8>, i: int) -> Option<(u64, int)> {
    if 0 <= i < s.len() && is_digit(s[i]) {
        if s[i] == 48 {
            Some((0, i + 1))
        } else {
            s_digits(s, i, 0)
        }
    } else {
        None
    }
}

/// The body of a string, after the opening quote: content bytes and escapes
/// up to the closing quote.  Raw control bytes are rejected.
pub open spec fn s_str_body(s: Seq<u8>, i: int) -> Option<(Seq<u8>, int)>
    decreases s.len() - i,
{
    if !(0 <= i < s.len()) {
        None
    } else {
        let b = s[i];
        if b == 34 {
            Some((Seq::empty(), i + 1))
        } else if b == 92 {
            if i + 1 >= s.len() {
                None
            } else {
                let e = s[i + 1];
                if e == 34 || e == 92 || e == 98 || e == 116 || e == 110 || e == 102 || e == 114 {
                    let v0: u8 = if e == 34 {
                        34
                    } else if e == 92 {
                        92
                    } else if e == 98 {
                        8
                    } else if e == 116 {
                        9
                    } else if e == 110 {
                        10
                    } else if e == 102 {
                        12
                    } else {
                        13
                    };
                    match s_str_body(s, i + 2) {
                        None => None,
                        Some((t, k)) => Some((seq![v0] + t, k)),
                    }
                } else if e == 117 {
                    if i + 5 >= s.len() {
                        None
                    } else if s[i + 2] == 48 && s[i + 3] == 48 && is_hex(s[i + 4]) && is_hex(
                        s[i + 5],
                    ) {
                        let v0 = (hex_val(s[i + 4]) * 16 + hex_val(s[i + 5])) as u8;
                        match s_str_body(s, i + 6) {
                            None => None,
                            Some((t, k)) => Some((seq![v0] + t, k)),
                        }
                    } else {
                        None
                    }
                } else {
                    None
                }
            }
        } else if b < 32 {
            None
        } else {
            match s_str_body(s, i + 1) {
                None => None,
                Some((t, k)) => Some((seq![b] + t, k)),
            }
        }
    }
}

/// A quoted string.
pub open spec fn s_parse_string(s: Seq<u8>, i: int) -> Option<(Seq<u8>, int)> {
    if 0 <= i < s.len() && s[i] == 34 {
        s_str_body(s, i + 1)
    } else {
        None
    }
}

pub open spec fn s_parse_bool(s: Seq<u8>, i: int) -> Option<(bool, int)> {
    if s_match(s, i, tok_true()) {
        Some((true, i + 4))
    } else if s_match(s, i, tok_false()) {
        Some((false, i + 5))
    } else {
        None
    }
}

pub open spec fn s_parse_mode(s: Seq<u8>, i: int) -> Option<(ListModeModel, int)> {
    if s_match(s, i, tok_all()) {
        Some((ListModeModel::All, i + 5))
    } else if s_match(s, i, tok_obj_one()) {
        match s_parse_string(s, i + 7) {
            None => None,
            Some((p, j)) => if j < s.len() && s[j] == 125 {
                Some((ListModeModel::One(p), j + 1))
            } else {
                None
            },
        }
    } else {
        None
    }
}

pub open spec fn s_parse_record(s: Seq<u8>, i: int) -> Option<(RecordModel, int)> {
    if !s_match(s, i, tok_obj_id()) {
        None
    } else {
        match s_parse_u64(s, i + 6) {
            None => None,
            Some((id, j1)) => if !s_match(s, j1, tok_name()) {
                None
            } else {
                match s_parse_string(s, j1 + 8) {
                    None => None,
                    Some((name, j2)) => if !s_match(s, j2, tok_ingredients()) {
                        None
                    } else {
                        match s_parse_string(s, j2 + 15) {
                            None => None,
                            Some((ingredients, j3)) => if !s_match(s, j3, tok_instructions()) {
                                None
                            } else {
                                match s_parse_string(s, j3 + 16) {
                                    None => None,
                                    Some((instructions, j4)) => if !s_match(s, j4, tok_public()) {
                                        None
                                    } else {
                                        match s_parse_bool(s, j4 + 10) {
                                            None => None,
                                            Some((public, j5)) => if j5 < s.len() && s[j5]
                                                == 125 {
                                                Some(
                                                    (
                                                        RecordModel {
                                                            id,
                                                            name,
                                                            ingredients,
                                                            instructions,
                                                            public,
                                                        },
                                                        j5 + 1,
                                                    ),
                                                )
                                            } else {
                                                None
                                            },
                                        }
                                    },
                                }
                            },
                        }
                    },
                }
            },
        }
    }
}

/// After one record: a `]` ends the list, a `,` introduces the next record.
pub open spec fn s_records_rest(s: Seq<u8>, i: int) -> Option<(Seq<RecordModel>, int)>
    decreases s.len() - i,
{
    if !(0 <= i < s.len()) {
        None
    } else if s[i] == 93 {
        Some((Seq::empty(), i + 1))
    } else if s[i] == 44 {
        match s_parse_record(s, i + 1) {
            None => None,
            Some((r, j)) => if i + 1 < j && j <= s.len() {
                match s_records_rest(s, j) {
                    None => None,
                    Some((rs, k)) => Some((seq![r] + rs, k)),
                }
            } else {
                None
            },
        }
    } else {
        None
    }
}

pub open spec fn s_parse_records(s: Seq<u8>, i: int) -> Option<(Seq<RecordModel>, int)> {
    if !(0 <= i < s.len() && s[i] == 91) {
        None
    } else if i + 1 < s.len() && s[i + 1] == 93 {
        Some((Seq::empty(), i + 2))
    } else {
        match s_parse_record(s, i + 1) {
            None => None,
            Some((r, j)) => if i + 1 < j && j <= s.len() {
                match s_records_rest(s, j) {
                    None => None,
                    Some((rs, k)) => Some((seq![r] + rs, k)),
                }
            } else {
                None
            },
        }
    }
}

/// The whole input is one envelope.  The response shape is committed to as
/// soon as a `data` field follows the mode; otherwise the request shape must
/// close the object immediately.
pub open spec fn s_parse_envelope(s: Seq<u8>) -> Option<EnvelopeModel> {
    if !s_match(s, 0, tok_obj_mode()) {
        None
    } else {
        match s_parse_mode(s, 8) {
            None => None,
            Some((mode, j)) => if s_match(s, j, tok_data()) {
                match s_parse_records(s, j + 8) {
                    None => None,
                    Some((data, k)) => if !s_match(s, k, tok_receiver()) {
                        None
                    } else {
                        match s_parse_string(s, k + 12) {
                            None => None,
                            Some((receiver, j2)) => if j2 < s.len() && s[j2] == 125 && j2 + 1
                                == s.len() {
                                Some(EnvelopeModel::Response { mode, data, receiver })
                            } else {
                                None
                            },
                        }
                    },
                }
            } else if j < s.len() && s[j] == 125 && j + 1 == s.len() {
                Some(EnvelopeModel::Request { mode })
            } else {
                None
            },
        }
    }
}

// ---------------------------------------------------------------------------
// The decoder: executable functions, each exactly as strong as its spec
// counterpart.
// ---------------------------------------------------------------------------
/// Whether the bytes of `lit` stand at position `i` of `s`.
pub(crate) fn match_bytes(s: &[u8], i: usize, lit: &[u8]) -> (r: bool)
    requires
        i <= s@.len(),
    ensures
        r == s_match(s@, i as int, lit@),
{
    if s.len() - i < lit.len() {
        return false;
    }
    let mut k: usize = 0;
    while k < lit.len()
        invariant
            k <= lit@.len(),
            i + lit@.len() <= s@.len(),
            forall|j: int| 0 <= j < k ==> s@[i + j] == lit@[j],
        decreases lit@.len() - k,
    {
        proof {
            assert(s@.len() == s.len());
        }
        if s[i + k] != lit[k] {
            proof {
                assert(!s_match(s@, i as int, lit@)) by {
                    if s_match(s@, i as int, lit@) {
                        assert(s@.subrange(i as int, i + lit@.len())[k as int] == s@[i + k]);
                    }
                }
            }
            return false;
        }
        k += 1;
    }
    proof {
        assert(s@.subrange(i as int, i + lit@.len()) =~= lit@);
    }
    true
}

fn tok_vec_obj_mode() -> (v: Vec<u8>)
    ensures
        v@ == tok_obj_mode(),
{
    let mut v: Vec<u8> = Vec::new();
    v.push(123);
    v.push(34);
    v.push(109);
    v.push(111);
    v.push(100);
    v.push(101);
    v.push(34);
    v.push(58);
    proof {
        assert(v@ =~= tok_obj_mode());
    }
    v
}

fn tok_vec_all() -> (v: Vec<u8>)
    ensures
        v@ == tok_all(),
{
    let mut v: Vec<u8> = Vec::new();
    v.push(34);
    v.push(65);
    v.push(76);
    v.push(76);
    v.push(34);
    proof {
        assert(v@ =~= tok_all());
    }
    v
}

fn tok_vec_obj_one() -> (v: Vec<u8>)
    ensures
        v@ == tok_obj_one(),
{
    let mut v: Vec<u8> = Vec::new();
    v.push(123);
    v.push(34);
    v.push(79);
    v.push(110);
    v.push(101);
    v.push(34);
    v.push(58);
    proof {
        assert(v@ =~= tok_obj_one());
    }
    v
}

fn tok_vec_data() -> (v: Vec<u8>)
    ensures
        v@ == tok_data(),
{
    let mut v: Vec<u8> = Vec::new();
    v.push(44);
    v.push(34);
    v.push(100);
    v.push(97);
    v.push(116);
    v.push(97);
    v.push(34);
    v.push(58);
    proof {
        assert(v@ =~= tok_data());
    }
    v
}

fn tok_vec_receiver() -> (v: Vec<u8>)
    ensures
        v@ == tok_receiver(),
{
    let mut v: Vec<u8> = Vec::new();
    v.push(44);
    v.push(34);
    v.push(114);
    v.push(101);
    v.push(99);
    v.push(101);
    v.push(105);
    v.push(118);
    v.push(101);
    v.push(114);
    v.push(34);
    v.push(58);
    proof {
        assert(v@ =~= tok_receiver());
    }
    v
}

fn tok_vec_obj_id() -> (v: Vec<u8>)
    ensures
        v@ == tok_obj_id(),
{
    let mut v: Vec<u8> = Vec::new();
    v.push(123);
    v.push(34);
    v.push(105);
    v.push(100);
    v.push(34);
    v.push(58);
    proof {
        assert(v@ =~= tok_obj_id());
    }
    v
}

fn tok_vec_name() -> (v: Vec<u8>)
    ensures
        v@ == tok_name(),
{
    let mut v: Vec<u8> = Vec::new();
    v.push(44);
    v.push(34);
    v.push(110);
    v.push(97);
    v.push(109);
    v.push(101);
    v.push(34);
    v.push(58);
    proof {
        assert(v@ =~= tok_name());
    }
    v
}

fn tok_vec_ingredients() -> (v: Vec<u8>)
    ensures
        v@ == tok_ingredients(),
{
    let mut v: Vec<u8> = Vec::new();
    v.push(44);
    v.push(34);
    v.push(105);
    v.push(110);
    v.push(103);
    v.push(114);
    v.push(101);
    v.push(100);
    v.push(105);
    v.push(101);
    v.push(110);
    v.push(116);
    v.push(115);
    v.push(34);
    v.push(58);
    proof {
        assert(v@ =~= tok_ingredients());
    }
    v
}

fn tok_vec_instructions() -> (v: Vec<u8>)
    ensures
        v@ == tok_instructions(),
{
    let mut v: Vec<u8> = Vec::new();
    v.push(44);
    v.push(34);
    v.push(105);
    v.push(110);
    v.push(115);
    v.push(116);
    v.push(114);
    v.push(117);
    v.push(99);
    v.push(116);
    v.push(105);
    v.push(111);
    v.push(110);
    v.push(115);
    v.push(34);
    v.push(58);
    proof {
        assert(v@ =~= tok_instructions());
    }
    v
}

fn tok_vec_public() -> (v: Vec<u8>)
    ensures
        v@ == tok_public(),
{
    let mut v: Vec<u8> = Vec::new();
    v.push(44);
    v.push(34);
    v.push(112);
    v.push(117);
    v.push(98);
    v.push(108);
    v.push(105);
    v.push(99);
    v.push(34);
    v.push(58);
    proof {
        assert(v@ =~= tok_public());
    }
    v
}

fn tok_vec_true() -> (v: Vec<u8>)
    ensures
        v@ == tok_true(),
{
    let mut v: Vec<u8> = Vec::new();
    v.push(116);
    v.push(114);
    v.push(117);
    v.push(101);
    proof {
        assert(v@ =~= tok_true());
    }
    v
}

fn tok_vec_false() -> (v: Vec<u8>)
    ensures
        v@ == tok_false(),
{
    let mut v: Vec<u8> = Vec::new();
    v.push(102);
    v.push(97);
    v.push(108);
    v.push(115);
    v.push(101);
    proof {
        assert(v@ =~= tok_false());
    }
    v
}

pub(crate) fn p_digits(s: &[u8], i: usize, acc: u64) -> (r: Option<(u64, usize)>)
    requires
        i <= s@.len(),
    ensures
        match r {
            Some((v, j)) => i <= j <= s@.len() && s_digits(s@, i as int, acc) == Some(
                (v, j as int),
            ),
            None => s_digits(s@, i as int, acc) is None,
        },
    decreases s@.len() - i,
{
    if i < s.len() && 48 <= s[i] && s[i] <= 57 {
        let d = (s[i] - 48) as u64;
        if acc > (u64::MAX - d) / 10 {
            None
        } else {
            proof {
                assert(acc * 10 + d <= u64::MAX) by (nonlinear_arith)
                    requires
                        acc <= (u64::MAX - d) / 10,
                        d <= 9,
                ;
            }
            p_digits(s, i + 1, acc * 10 + d)
        }
    } else {
        Some((acc, i))
    }
}

fn p_u64(s: &[u8], i: usize) -> (r: Option<(u64, usize)>)
    requires
        i <= s@.len(),
    ensures
        match r {
            Some((v, j)) => i <= j <= s@.len() && s_parse_u64(s@, i as int) == Some(
                (v, j as int),
            ),
            None => s_parse_u64(s@, i as int) is None,
        },
{
    if i < s.len() && 48 <= s[i] && s[i] <= 57 {
        if s[i] == 48 {
            Some((0, i + 1))
        } else {
            p_digits(s, i, 0)
        }
    } else {
        None
    }
}

/// `r` with `pre` prepended to its parsed bytes.
spec fn prepended(r: Option<(Seq<u8>, int)>, pre: Seq<u8>) -> Option<(Seq<u8>, int)> {
    match r {
        None => None,
        Some((t, k)) => Some((pre + t, k)),
    }
}

proof fn lemma_prepended_compose(r: Option<(Seq<u8>, int)>, a: Seq<u8>, b: Seq<u8>)
    ensures
        prepended(prepended(r, b), a) == prepended(r, a + b),
{
    match r {
        None => {},
        Some((t, k)) => {
            assert(a + (b + t) =~= (a + b) + t);
        },
    }
}

fn p_str_body(s: &[u8], i: usize) -> (r: Option<(Vec<u8>, usize)>)
    requires
        i <= s@.len(),
    ensures
        match r {
            Some((v, j)) => i <= j <= s@.len() && s_str_body(s@, i as int) == Some(
                (v@, j as int),
            ),
            None => s_str_body(s@, i as int) is None,
        },
{
    let mut acc: Vec<u8> = Vec::new();
    let mut j: usize = i;
    loop
        invariant
            i <= j <= s@.len(),
            s_str_body(s@, i as int) == prepended(s_str_body(s@, j as int), acc@),
        decreases s@.len() - j,
    {
        if j >= s.len() {
            return None;
        }
        let b = s[j];
        if b == 34 {
            proof {
                assert(acc@ + Seq::<u8>::empty() =~= acc@);
            }
            return Some((acc, j + 1));
        }
        if b == 92 {
            if j + 1 >= s.len() {
                return None;
            }
            let e = s[j + 1];
            if e == 34 || e == 92 || e == 98 || e == 116 || e == 110 || e == 102 || e == 114 {
                let v0: u8 = if e == 34 {
                    34
                } else if e == 92 {
                    92
                } else if e == 98 {
                    8
                } else if e == 116 {
                    9
                } else if e == 110 {
                    10
                } else if e == 102 {
                    12
                } else {
                    13
                };
                let ghost acc0 = acc@;
                proof {
                    assert(s_str_body(s@, j as int) == prepended(
                        s_str_body(s@, j + 2),
                        seq![v0],
                    ));
                    lemma_prepended_compose(s_str_body(s@, j + 2), acc0, seq![v0]);
                }
                acc.push(v0);
                proof {
                    assert(acc@ =~= acc0 + seq![v0]);
                }
                j = j + 2;
            } else if e == 117 {
                if s.len() - j <= 5 {
                    return None;
                }
                let h1 = s[j + 4];
                let h2 = s[j + 5];
                if s[j + 2] == 48 && s[j + 3] == 48 && ((48 <= h1 && h1 <= 57) || (97 <= h1 && h1
                    <= 102)) && ((48 <= h2 && h2 <= 57) || (97 <= h2 && h2 <= 102)) {
                    let v0: u8 = (if h1 <= 57 {
                        h1 - 48
                    } else {
                        h1 - 87
                    }) * 16 + (if h2 <= 57 {
                        h2 - 48
                    } else {
                        h2 - 87
                    });
                    let ghost acc0 = acc@;
                    proof {
                        assert(s_str_body(s@, j as int) == prepended(
                            s_str_body(s@, j + 6),
                            seq![v0],
                        ));
                        lemma_prepended_compose(s_str_body(s@, j + 6), acc0, seq![v0]);
                    }
                    acc.push(v0);
                    proof {
                        assert(acc@ =~= acc0 + seq![v0]);
                    }
                    j = j + 6;
                } else {
                    return None;
                }
            } else {
                return None;
            }
        } else if b < 32 {
            return None;
        } else {
            let ghost acc0 = acc@;
            proof {
                assert(s_str_body(s@, j as int) == prepended(s_str_body(s@, j + 1), seq![b]));
                lemma_prepended_compose(s_str_body(s@, j + 1), acc0, seq![b]);
            }
            acc.push(b);
            proof {
                assert(acc@ =~= acc0 + seq![b]);
            }
            j = j + 1;
        }
    }
}

fn p_string(s: &[u8], i: usize) -> (r: Option<(Vec<u8>, usize)>)
    requires
        i <= s@.len(),
    ensures
        match r {
            Some((v, j)) => i <= j <= s@.len() && s_parse_string(s@, i as int) == Some(
                (v@, j as int),
            ),
            None => s_parse_string(s@, i as int) is None,
        },
{
    if i < s.len() && s[i] == 34 {
        p_str_body(s, i + 1)
    } else {
        None
    }
}

fn p_bool(s: &[u8], i: usize) -> (r: Option<(bool, usize)>)
    requires
        i <= s@.len(),
    ensures
        match r {
            Some((v, j)) => i <= j <= s@.len() && s_parse_bool(s@, i as int) == Some(
                (v, j as int),
            ),
            None => s_parse_bool(s@, i as int) is None,
        },
{
    proof {
        assert(s@.len() == s.len());
    }
    let t_true = tok_vec_true();
    if match_bytes(s, i, t_true.as_slice()) {
        return Some((true, i + 4));
    }
    let t_false = tok_vec_false();
    if match_bytes(s, i, t_false.as_slice()) {
        return Some((false, i + 5));
    }
    None
}

fn p_mode(s: &[u8], i: usize) -> (r: Option<(crate::envelope::ListMode, usize)>)
    requires
        i <= s@.len(),
    ensures
        match r {
            Some((m, j)) => i <= j <= s@.len() && s_parse_mode(s@, i as int) == Some(
                (m@, j as int),
            ),
            None => s_parse_mode(s@, i as int) is None,
        },
{
    proof {
        assert(s@.len() == s.len());
    }
    let t_all = tok_vec_all();
    if match_bytes(s, i, t_all.as_slice()) {
        return Some((crate::envelope::ListMode::All, i + 5));
    }
    let t_one = tok_vec_obj_one();
    if match_bytes(s, i, t_one.as_slice()) {
        match p_string(s, i + 7) {
            None => None,
            Some((p, j)) => {
                if j < s.len() && s[j] == 125 {
                    Some((crate::envelope::ListMode::One(p), j + 1))
                } else {
                    None
                }
            },
        }
    } else {
        None
    }
}

#[verifier::rlimit(50)]
fn p_record(s: &[u8], i: usize) -> (r: Option<(crate::catalog::Record, usize)>)
    requires
        i <= s@.len(),
    ensures
        match r {
            Some((rec, j)) => i <= j <= s@.len() && s_parse_record(s@, i as int) == Some(
                (rec@, j as int),
            ),
            None => s_parse_record(s@, i as int) is None,
        },
{
    proof {
        assert(s@.len() == s.len());
    }
    let t_id = tok_vec_obj_id();
    if !match_bytes(s, i, t_id.as_slice()) {
        return None;
    }
    let (id, j1) = match p_u64(s, i + 6) {
        None => {
            return None;
        },
        Some(x) => x,
    };
    let t_name = tok_vec_name();
    if !match_bytes(s, j1, t_name.as_slice()) {
        return None;
    }
    let (name, j2) = match p_string(s, j1 + 8) {
        None => {
            return None;
        },
        Some(x) => x,
    };
    let t_ing = tok_vec_ingredients();
    if !match_bytes(s, j2, t_ing.as_slice()) {
        return None;
    }
    let (ingredients, j3) = match p_string(s, j2 + 15) {
        None => {
            return None;
        },
        Some(x) => x,
    };
    let t_ins = tok_vec_instructions();
    if !match_bytes(s, j3, t_ins.as_slice()) {
        return None;
    }
    let (instructions, j4) = match p_string(s, j3 + 16) {
        None => {
            return None;
        },
        Some(x) => x,
    };
    let t_pub = tok_vec_public();
    if !match_bytes(s, j4, t_pub.as_slice()) {
        return None;
    }
    let (public, j5) = match p_bool(s, j4 + 10) {
        None => {
            return None;
        },
        Some(x) => x,
    };
    if j5 < s.len() && s[j5] == 125 {
        Some((crate::catalog::Record { id, name, ingredients, instructions, public }, j5 + 1))
    } else {
        None
    }
}

fn p_records_rest(s: &[u8], i: usize) -> (r: Option<(Vec<crate::catalog::Record>, usize)>)
    requires
        i <= s@.len(),
    ensures
        match r {
            Some((v, j)) => i <= j <= s@.len() && s_records_rest(s@, i as int) == Some(
                (v.deep_view(), j as int),
            ),
            None => s_records_rest(s@, i as int) is None,
        },
    decreases s@.len() - i,
{
    if i >= s.len() {
        return None;
    }
    if s[i] == 93 {
        let v: Vec<crate::catalog::Record> = Vec::new();
        proof {
            assert(v.deep_view() =~= Seq::<RecordModel>::empty());
        }
        return Some((v, i + 1));
    }
    if s[i] != 44 {
        return None;
    }
    let (rec, j) = match p_record(s, i + 1) {
        None => {
            return None;
        },
        Some(x) => x,
    };
    if !(i + 1 < j) {
        return None;
    }
    match p_records_rest(s, j) {
        None => None,
        Some((rest, k)) => {
            let ghost restv = rest.deep_view();
            let ghost recv = rec@;
            let mut v = rest;
            v.insert(0, rec);
            proof {
                assert(v.deep_view() =~= seq![recv] + restv);
            }
            Some((v, k))
        },
    }
}

fn p_records(s: &[u8], i: usize) -> (r: Option<(Vec<crate::catalog::Record>, usize)>)
    requires
        i <= s@.len(),
    ensures
        match r {
            Some((v, j)) => i <= j <= s@.len() && s_parse_records(s@, i as int) == Some(
                (v.deep_view(), j as int),
            ),
            None => s_parse_records(s@, i as int) is None,
        },
{
    if !(i < s.len() && s[i] == 91) {
        return None;
    }
    if i + 1 < s.len() && s[i + 1] == 93 {
        let v: Vec<crate::catalog::Record> = Vec::new();
        proof {
            assert(v.deep_view() =~= Seq::<RecordModel>::empty());
        }
        return Some((v, i + 2));
    }
    let (rec, j) = match p_record(s, i + 1) {
        None => {
            return None;
        },
        Some(x) => x,
    };
    if !(i + 1 < j) {
        return None;
    }
    match p_records_rest(s, j) {
        None => None,
        Some((rest, k)) => {
            let ghost restv = rest.deep_view();
            let ghost recv = rec@;
            let mut v = rest;
            v.insert(0, rec);
            proof {
                assert(v.deep_view() =~= seq![recv] + restv);
            }
            Some((v, k))
        },
    }
}

/// Decodes one envelope from its canonical wire bytes; anything else — a
/// truncated message, trailing bytes, foreign traffic — yields `None`.
pub fn decode_envelope(s: &[u8]) -> (r: Option<crate::envelope::Envelope>)
    ensures
        match r {
            Some(e) => s_parse_envelope(s@) == Some(e.deep_view()),
            None => s_parse_envelope(s@) is None,
        },
{
    proof {
        assert(s@.len() == s.len());
    }
    let t_mode = tok_vec_obj_mode();
    if !match_bytes(s, 0, t_mode.as_slice()) {
        return None;
    }
    let (mode, j) = match p_mode(s, 8) {
        None => {
            return None;
        },
        Some(x) => x,
    };
    let t_data = tok_vec_data();
    if match_bytes(s, j, t_data.as_slice()) {
        let (data, k) = match p_records(s, j + 8) {
            None => {
                return None;
            },
            Some(x) => x,
        };
        let t_recv = tok_vec_receiver();
        if !match_bytes(s, k, t_recv.as_slice()) {
            return None;
        }
        let (receiver, j2) = match p_string(s, k + 12) {
            None => {
                return None;
            },
            Some(x) => x,
        };
        if j2 < s.len() && s[j2] == 125 && j2 + 1 == s.len() {
            Some(crate::envelope::Envelope::Response { mode, data, receiver })
        } else {
            None
        }
    } else if j < s.len() && s[j] == 125 && j + 1 == s.len() {
        Some(crate::envelope::Envelope::Request { mode })
    } else {
        None
    }
}

// ---------------------------------------------------------------------------
// Round trip: every encoded envelope decodes to itself.  Each lemma below
// says that where a window of the input holds the encoding of a value, the
// corresponding parser consumes exactly that window and yields that value.
// ---------------------------------------------------------------------------
/// Powers of ten.
pub open spec fn pow10(k: nat) -> nat
    decreases k,
{
    if k == 0 {
        1
    } else {
        10 * pow10((k - 1) as nat)
    }
}

/// A part of a window of `s` is itself a window of `s`.
proof fn lemma_window(s: Seq<u8>, i: int, w: Seq<u8>, off: int, part: Seq<u8>)
    requires
        0 <= i,
        i + w.len() <= s.len(),
        s.subrange(i, i + w.len()) == w,
        0 <= off,
        off + part.len() <= w.len(),
        w.subrange(off, off + part.len()) == part,
    ensures
        s.subrange(i + off, i + off + part.len()) == part,
{
    assert(s.subrange(i + off, i + off + part.len()) =~= w.subrange(off, off + part.len()));
}

/// One byte of a window of `s`.
proof fn lemma_window_byte(s: Seq<u8>, i: int, w: Seq<u8>, k: int)
    requires
        0 <= i,
        i + w.len() <= s.len(),
        s.subrange(i, i + w.len()) == w,
        0 <= k < w.len(),
    ensures
        s[i + k] == w[k],
{
    assert(s.subrange(i, i + w.len())[k] == s[i + k]);
}

/// The digits of `n` are digits, there is at least one, and only zero
/// starts with the zero digit.
proof fn lemma_enc_digits_shape(n: nat)
    ensures
        enc_digits(n).len() >= 1,
        forall|k: int| 0 <= k < enc_digits(n).len() ==> is_digit(#[trigger] enc_digits(n)[k]),
        n >= 1 ==> enc_digits(n)[0] != 48,
        n == 0 ==> enc_digits(n) == seq![48u8],
    decreases n,
{
    if n < 10 {
        assert(enc_digits(n) == seq![(48 + n) as u8]);
    } else {
        lemma_enc_digits_shape(n / 10);
        assert(enc_digits(n) == enc_digits(n / 10).push((48 + n % 10) as u8));
        assert(n / 10 >= 1);
        assert(enc_digits(n)[0] == enc_digits(n / 10)[0]);
    }
}

/// Consuming the digits of `m` multiplies the accumulator by the matching
/// power of ten and adds `m`.
proof fn lemma_rt_digits(s: Seq<u8>, i: int, acc: u64, m: nat)
    requires
        0 <= i,
        i + enc_digits(m).len() <= s.len(),
        s.subrange(i, i + enc_digits(m).len()) == enc_digits(m),
        acc * pow10(enc_digits(m).len()) + m <= u64::MAX,
    ensures
        s_digits(s, i, acc) == s_digits(
            s,
            i + enc_digits(m).len(),
            (acc * pow10(enc_digits(m).len()) + m) as u64,
        ),
    decreases m,
{
    let e = enc_digits(m);
    lemma_enc_digits_shape(m);
    if m < 10 {
        assert(e == seq![(48 + m) as u8]);
        lemma_window_byte(s, i, e, 0);
        assert(s[i] == (48 + m) as u8);
        assert(is_digit(s[i]));
        let d = (s[i] - 48) as u64;
        assert(d == m);
        assert(pow10(0) == 1);
        assert(pow10(1) == 10);
        assert(acc * 10 + m <= u64::MAX);
        assert(acc <= (u64::MAX - d) / 10) by (nonlinear_arith)
            requires
                acc * 10 + d <= u64::MAX,
                d <= 9,
        ;
        assert(s_digits(s, i, acc) == s_digits(s, i + 1, (acc * 10 + d) as u64));
    } else {
        let e1 = enc_digits(m / 10);
        let last = (48 + m % 10) as u8;
        assert(e == e1.push(last));
        assert(e.subrange(0, e1.len() as int) =~= e1);
        lemma_window(s, i, e, 0, e1);
        // The bound for the leading digits.
        let l1 = e1.len();
        assert(pow10(l1 + 1) == 10 * pow10(l1));
        assert(e.len() == l1 + 1);
        assert(acc * (10 * pow10(l1)) + m <= u64::MAX);
        let mid = acc * pow10(l1) + m / 10;
        assert(mid * 10 + m % 10 == acc * (10 * pow10(l1)) + m) by (nonlinear_arith)
            requires
                mid == acc * pow10(l1) + m / 10,
                m >= 10,
        ;
        assert(mid * 10 + m % 10 <= u64::MAX);
        assert(mid <= u64::MAX);
        lemma_rt_digits(s, i, acc, m / 10);
        assert(s_digits(s, i, acc) == s_digits(s, i + l1, mid as u64));
        // One more step for the last digit.
        lemma_window_byte(s, i, e, l1 as int);
        assert(s[i + l1] == last);
        assert(is_digit(s[i + l1]));
        let d = (s[i + l1] - 48) as u64;
        assert(d == m % 10);
        assert(mid <= (u64::MAX - d) / 10) by (nonlinear_arith)
            requires
                mid * 10 + d <= u64::MAX,
                d <= 9,
                mid >= 0,
        ;
        assert(s_digits(s, i + l1, mid as u64) == s_digits(s, i + l1 + 1, (mid * 10 + d) as u64));
        assert(i + l1 + 1 == i + e.len());
        assert((mid * 10 + d) as u64 == (acc * pow10(e.len()) + m) as u64);
    }
}

/// A window holding the digits of `n`, followed by a non-digit or the end
/// of the input, parses as exactly `n`.
proof fn lemma_rt_u64(s: Seq<u8>, i: int, n: u64)
    requires
        0 <= i,
        i + enc_digits(n as nat).len() <= s.len(),
        s.subrange(i, i + enc_digits(n as nat).len()) == enc_digits(n as nat),
        i + enc_digits(n as nat).len() == s.len() || !is_digit(
            s[i + enc_digits(n as nat).len()],
        ),
    ensures
        s_parse_u64(s, i) == Some((n, i + enc_digits(n as nat).len())),
{
    let e = enc_digits(n as nat);
    lemma_enc_digits_shape(n as nat);
    lemma_window_byte(s, i, e, 0);
    assert(is_digit(s[i]));
    if n == 0 {
        assert(e == seq![48u8]);
        assert(s[i] == 48);
    } else {
        assert(s[i] == e[0]);
        assert(s[i] != 48);
        assert(pow10(e.len()) >= 1) by {
            lemma_pow10_pos(e.len());
        }
        assert(0 * pow10(e.len()) + n as nat == n as nat);
        lemma_rt_digits(s, i, 0, n as nat);
        assert(s_digits(s, i, 0) == s_digits(s, i + e.len(), n));
        assert(s_digits(s, i + e.len(), n) == Some((n, i + e.len())));
    }
}

proof fn lemma_pow10_pos(k: nat)
    ensures
        pow10(k) >= 1,
    decreases k,
{
    if k > 0 {
        lemma_pow10_pos((k - 1) as nat);
    }
}

/// A window holding the escaped body of `p` and the closing quote parses as
/// exactly `p`.
proof fn lemma_rt_str_body(s: Seq<u8>, i: int, p: Seq<u8>)
    requires
        0 <= i,
        i + esc(p).len() + 1 <= s.len(),
        s.subrange(i, i + esc(p).len() + 1) == esc(p) + seq![34u8],
    ensures
        s_str_body(s, i) == Some((p, i + esc(p).len() + 1)),
    decreases p.len(),
{
    let w = esc(p) + seq![34u8];
    if p.len() == 0 {
        assert(esc(p) =~= Seq::<u8>::empty());
        lemma_window_byte(s, i, w, 0);
        assert(s[i] == 34);
        assert(s_str_body(s, i) == Some((Seq::<u8>::empty(), i + 1)));
        assert(p =~= Seq::<u8>::empty());
    } else {
        let b0 = p.first();
        let eb = esc_byte(b0);
        let rest = p.drop_first();
        assert(esc(p) == eb + esc(rest));
        let wrest = esc(rest) + seq![34u8];
        assert(w =~= eb + wrest);
        assert(w.subrange(eb.len() as int, w.len() as int) =~= wrest);
        lemma_window(s, i, w, eb.len() as int, wrest);
        lemma_rt_str_body(s, i + eb.len(), rest);
        assert(seq![b0] + rest =~= p);
        if b0 == 34 || b0 == 92 {
            assert(eb == seq![92u8, b0]);
            lemma_window_byte(s, i, w, 0);
            lemma_window_byte(s, i, w, 1);
            assert(s[i] == 92 && s[i + 1] == b0);
        } else if b0 == 8 {
            assert(eb == seq![92u8, 98]);
            lemma_window_byte(s, i, w, 0);
            lemma_window_byte(s, i, w, 1);
        } else if b0 == 9 {
            assert(eb == seq![92u8, 116]);
            lemma_window_byte(s, i, w, 0);
            lemma_window_byte(s, i, w, 1);
        } else if b0 == 10 {
            assert(eb == seq![92u8, 110]);
            lemma_window_byte(s, i, w, 0);
            lemma_window_byte(s, i, w, 1);
        } else if b0 == 12 {
            assert(eb == seq![92u8, 102]);
            lemma_window_byte(s, i, w, 0);
            lemma_window_byte(s, i, w, 1);
        } else if b0 == 13 {
            assert(eb == seq![92u8, 114]);
            lemma_window_byte(s, i, w, 0);
            lemma_window_byte(s, i, w, 1);
        } else if b0 < 32 {
            let h1 = hex_digit((b0 / 16) as nat);
            let h2 = hex_digit((b0 % 16) as nat);
            assert(eb == seq![92u8, 117, 48, 48, h1, h2]);
            lemma_window_byte(s, i, w, 0);
            lemma_window_byte(s, i, w, 1);
            lemma_window_byte(s, i, w, 2);
            lemma_window_byte(s, i, w, 3);
            lemma_window_byte(s, i, w, 4);
            lemma_window_byte(s, i, w, 5);
            assert(is_hex(h1) && is_hex(h2));
            assert(hex_val(h1) == b0 / 16 && hex_val(h2) == b0 % 16);
            assert(hex_val(h1) * 16 + hex_val(h2) == b0);
        } else {
            assert(eb == seq![b0]);
            lemma_window_byte(s, i, w, 0);
            assert(s[i] == b0);
        }
    }
}

/// A window holding the quoted form of `p` parses as exactly `p`.
proof fn lemma_rt_string(s: Seq<u8>, i: int, p: Seq<u8>)
    requires
        0 <= i,
        i + enc_string(p).len() <= s.len(),
        s.subrange(i, i + enc_string(p).len()) == enc_string(p),
    ensures
        s_parse_string(s, i) == Some((p, i + enc_string(p).len())),
{
    let w = enc_string(p);
    lemma_window_byte(s, i, w, 0);
    assert(s[i] == 34);
    let body = esc(p) + seq![34u8];
    assert(w.subrange(1, w.len() as int) =~= body);
    lemma_window(s, i, w, 1, body);
    lemma_rt_str_body(s, i + 1, p);
}

/// A window holding `true` or `false` parses as that boolean.
proof fn lemma_rt_bool(s: Seq<u8>, i: int, b: bool)
    requires
        0 <= i,
        i + enc_bool(b).len() <= s.len(),
        s.subrange(i, i + enc_bool(b).len()) == enc_bool(b),
    ensures
        s_parse_bool(s, i) == Some((b, i + enc_bool(b).len())),
{
    if b {
        assert(s_match(s, i, tok_true()));
    } else {
        assert(s_match(s, i, tok_false()));
        assert(!s_match(s, i, tok_true())) by {
            if s_match(s, i, tok_true()) {
                assert(s.subrange(i, i + 4)[0] == s[i]);
                assert(s.subrange(i, i + 5)[0] == s[i]);
            }
        }
    }
}

/// A window holding the encoding of a mode parses as that mode.
proof fn lemma_rt_mode(s: Seq<u8>, i: int, m: ListModeModel)
    requires
        0 <= i,
        i + enc_mode(m).len() <= s.len(),
        s.subrange(i, i + enc_mode(m).len()) == enc_mode(m),
    ensures
        s_parse_mode(s, i) == Some((m, i + enc_mode(m).len())),
{
    let w = enc_mode(m);
    match m {
        ListModeModel::All => {
            assert(s_match(s, i, tok_all()));
        },
        ListModeModel::One(p) => {
            assert(!s_match(s, i, tok_all())) by {
                if s_match(s, i, tok_all()) {
                    assert(s.subrange(i, i + 5)[0] == s[i]);
                    lemma_window_byte(s, i, w, 0);
                }
            }
            assert(w.subrange(0, 7) =~= tok_obj_one());
            lemma_window(s, i, w, 0, tok_obj_one());
            assert(s_match(s, i, tok_obj_one()));
            let es = enc_string(p);
            assert(w.subrange(7, 7 + es.len() as int) =~= es);
            lemma_window(s, i, w, 7, es);
            lemma_rt_string(s, i + 7, p);
            let j = i + 7 + es.len();
            lemma_window_byte(s, i, w, 7 + es.len() as int);
            assert(s[j] == 125);
        },
    }
}

/// A window holding the encoding of a record parses as that record.
#[verifier::rlimit(100)]
proof fn lemma_rt_record(s: Seq<u8>, i: int, r: RecordModel)
    requires
        0 <= i,
        i + enc_record(r).len() <= s.len(),
        s.subrange(i, i + enc_record(r).len()) == enc_record(r),
    ensures
        s_parse_record(s, i) == Some((r, i + enc_record(r).len())),
{
    let w = enc_record(r);
    let d = enc_digits(r.id as nat);
    let s1 = enc_string(r.name);
    let s2 = enc_string(r.ingredients);
    let s3 = enc_string(r.instructions);
    let bb = enc_bool(r.public);
    let o1: int = 6;
    let o2 = o1 + d.len();
    let o3 = o2 + 8;
    let o4 = o3 + s1.len();
    let o5 = o4 + 15;
    let o6 = o5 + s2.len();
    let o7 = o6 + 16;
    let o8 = o7 + s3.len();
    let o9 = o8 + 10;
    let o10 = o9 + bb.len();
    assert(w.len() == o10 + 1);
    // Each component stands in its own window.
    assert(w.subrange(0, 6) =~= tok_obj_id());
    lemma_window(s, i, w, 0, tok_obj_id());
    assert(s_match(s, i, tok_obj_id()));
    assert(w.subrange(o1, o2) =~= d);
    lemma_window(s, i, w, o1, d);
    assert(w.subrange(o2, o3) =~= tok_name());
    lemma_window(s, i, w, o2, tok_name());
    assert(w.subrange(o3, o4) =~= s1);
    lemma_window(s, i, w, o3, s1);
    assert(w.subrange(o4, o5) =~= tok_ingredients());
    lemma_window(s, i, w, o4, tok_ingredients());
    assert(w.subrange(o5, o6) =~= s2);
    lemma_window(s, i, w, o5, s2);
    assert(w.subrange(o6, o7) =~= tok_instructions());
    lemma_window(s, i, w, o6, tok_instructions());
    assert(w.subrange(o7, o8) =~= s3);
    lemma_window(s, i, w, o7, s3);
    assert(w.subrange(o8, o9) =~= tok_public());
    lemma_window(s, i, w, o8, tok_public());
    assert(w.subrange(o9, o10) =~= bb);
    lemma_window(s, i, w, o9, bb);
    lemma_window_byte(s, i, w, o10);
    assert(s[i + o10] == 125);
    // The id's digits end at a comma, so the number parser stops there.
    lemma_window_byte(s, i, w, o2);
    assert(s[i + o2] == 44);
    lemma_rt_u64(s, i + o1, r.id);
    assert(s_match(s, i + o2, tok_name()));
    lemma_rt_string(s, i + o3, r.name);
    assert(s_match(s, i + o4, tok_ingredients()));
    lemma_rt_string(s, i + o5, r.ingredients);
    assert(s_match(s, i + o6, tok_instructions()));
    lemma_rt_string(s, i + o7, r.instructions);
    assert(s_match(s, i + o8, tok_public()));
    lemma_rt_bool(s, i + o9, r.public);
    assert(r == RecordModel {
        id: r.id,
        name: r.name,
        ingredients: r.ingredients,
        instructions: r.instructions,
        public: r.public,
    });
}

/// What follows the first record of a non-empty list: for each further
/// record a comma and its encoding, then the closing bracket.
pub open spec fn enc_rest(rs: Seq<RecordModel>) -> Seq<u8>
    decreases rs.len(),
{
    if rs.len() == 0 {
        seq![93u8]
    } else {
        seq![44u8] + enc_record(rs.first()) + enc_rest(rs.drop_first())
    }
}

/// The comma-joined list followed by the closing bracket is the first
/// record's encoding followed by the rest of the list.
proof fn lemma_inner_rest(rs: Seq<RecordModel>)
    requires
        rs.len() > 0,
    ensures
        enc_records_inner(rs) + seq![93u8] == enc_record(rs.first()) + enc_rest(rs.drop_first()),
    decreases rs.len(),
{
    if rs.len() == 1 {
        assert(enc_records_inner(rs) + seq![93u8] =~= enc_record(rs.first()) + enc_rest(
            rs.drop_first(),
        ));
    } else {
        let drop = rs.drop_first();
        lemma_inner_rest(drop);
        assert(enc_rest(drop) == seq![44u8] + enc_record(drop.first()) + enc_rest(
            drop.drop_first(),
        ));
        assert(enc_rest(drop) =~= seq![44u8] + (enc_records_inner(drop) + seq![93u8]));
        assert(enc_records_inner(rs) + seq![93u8] =~= enc_record(rs.first()) + enc_rest(drop));
    }
}

/// The bracketed list of a non-empty record sequence is its first record's
/// encoding between the opening bracket and the rest.
proof fn lemma_records_split(rs: Seq<RecordModel>)
    requires
        rs.len() > 0,
    ensures
        enc_records(rs) == seq![91u8] + enc_record(rs.first()) + enc_rest(rs.drop_first()),
{
    lemma_inner_rest(rs);
    assert(enc_records(rs) =~= seq![91u8] + (enc_records_inner(rs) + seq![93u8]));
    assert(seq![91u8] + (enc_record(rs.first()) + enc_rest(rs.drop_first())) =~= seq![91u8]
        + enc_record(rs.first()) + enc_rest(rs.drop_first()));
}

/// A window holding the tail of a record list parses as those records.
#[verifier::rlimit(100)]
proof fn lemma_rt_records_rest(s: Seq<u8>, i: int, rs: Seq<RecordModel>)
    requires
        0 <= i,
        i + enc_rest(rs).len() <= s.len(),
        s.subrange(i, i + enc_rest(rs).len()) == enc_rest(rs),
    ensures
        s_records_rest(s, i) == Some((rs, i + enc_rest(rs).len())),
    decreases rs.len(),
{
    let w = enc_rest(rs);
    if rs.len() == 0 {
        lemma_window_byte(s, i, w, 0);
        assert(s[i] == 93);
        assert(rs =~= Seq::<RecordModel>::empty());
    } else {
        let r0 = rs.first();
        let er = enc_record(r0);
        lemma_window_byte(s, i, w, 0);
        assert(s[i] == 44);
        assert(w.subrange(1, 1 + er.len() as int) =~= er);
        lemma_window(s, i, w, 1, er);
        lemma_rt_record(s, i + 1, r0);
        let j = i + 1 + er.len();
        let rest = enc_rest(rs.drop_first());
        assert(w.subrange(1 + er.len() as int, w.len() as int) =~= rest);
        lemma_window(s, i, w, 1 + er.len() as int, rest);
        lemma_rt_records_rest(s, j, rs.drop_first());
        assert(seq![r0] + rs.drop_first() =~= rs);
    }
}

/// A window holding a bracketed record list parses as those records.
#[verifier::rlimit(100)]
proof fn lemma_rt_records(s: Seq<u8>, i: int, rs: Seq<RecordModel>)
    requires
        0 <= i,
        i + enc_records(rs).len() <= s.len(),
        s.subrange(i, i + enc_records(rs).len()) == enc_records(rs),
    ensures
        s_parse_records(s, i) == Some((rs, i + enc_records(rs).len())),
{
    let w = enc_records(rs);
    lemma_window_byte(s, i, w, 0);
    assert(s[i] == 91);
    if rs.len() == 0 {
        assert(w =~= seq![91u8, 93]);
        lemma_window_byte(s, i, w, 1);
        assert(s[i + 1] == 93);
        assert(rs =~= Seq::<RecordModel>::empty());
    } else {
        lemma_records_split(rs);
        let r0 = rs.first();
        let er = enc_record(r0);
        assert(w.subrange(1, 1 + er.len() as int) =~= er);
        lemma_window(s, i, w, 1, er);
        lemma_window_byte(s, i, w, 1);
        assert(s[i + 1] == 123);
        lemma_rt_record(s, i + 1, r0);
        let j = i + 1 + er.len();
        let rest = enc_rest(rs.drop_first());
        assert(w.subrange(1 + er.len() as int, w.len() as int) =~= rest);
        lemma_window(s, i, w, 1 + er.len() as int, rest);
        lemma_rt_records_rest(s, j, rs.drop_first());
        assert(seq![r0] + rs.drop_first() =~= rs);
    }
}

/// Round trip for a request envelope.
#[verifier::rlimit(100)]
#[verifier::spinoff_prover]
proof fn lemma_rt_request(mode: ListModeModel)
    ensures
        s_parse_envelope(enc_envelope(EnvelopeModel::Request { mode })) == Some(
            EnvelopeModel::Request { mode },
        ),
{
    let s = enc_envelope(EnvelopeModel::Request { mode });
    let em = enc_mode(mode);
    assert(s == tok_obj_mode() + em + seq![125u8]);
    assert(s.subrange(0, 8) =~= tok_obj_mode());
    assert(s_match(s, 0, tok_obj_mode()));
    assert(s.subrange(8, 8 + em.len() as int) =~= em);
    lemma_rt_mode(s, 8, mode);
    let j: int = 8 + em.len() as int;
    assert(s[j] == 125);
    assert(j + 1 == s.len());
    assert(!s_match(s, j, tok_data()));
}

/// Round trip for a response envelope.
#[verifier::rlimit(100)]
#[verifier::spinoff_prover]
proof fn lemma_rt_response(mode: ListModeModel, data: Seq<RecordModel>, receiver: Seq<u8>)
    ensures
        s_parse_envelope(enc_envelope(EnvelopeModel::Response { mode, data, receiver })) == Some(
            EnvelopeModel::Response { mode, data, receiver },
        ),
{
    let s = enc_envelope(EnvelopeModel::Response { mode, data, receiver });
    {
        {
            let em = enc_mode(mode);
            let erc = enc_records(data);
            let ers = enc_string(receiver);
            let o1: int = 8 + em.len() as int;
            let o2: int = o1 + 8;
            let o3: int = o2 + erc.len() as int;
            let o4: int = o3 + 12;
            let o5: int = o4 + ers.len() as int;
            assert(s.len() == o5 + 1);
            assert(s.subrange(0, 8) =~= tok_obj_mode());
            assert(s_match(s, 0, tok_obj_mode()));
            assert(s.subrange(8, o1) =~= em);
            lemma_rt_mode(s, 8, mode);
            assert(s.subrange(o1, o2) =~= tok_data());
            assert(s_match(s, o1, tok_data()));
            assert(s.subrange(o2, o3) =~= erc);
            lemma_rt_records(s, o2, data);
            assert(s.subrange(o3, o4) =~= tok_receiver());
            assert(s_match(s, o3, tok_receiver()));
            assert(s.subrange(o4, o5) =~= ers);
            lemma_rt_string(s, o4, receiver);
            assert(s[o5] == 125);
            assert(o5 + 1 == s.len());
        }
    }
}

/// Round trip: the canonical encoding of any envelope decodes back to
/// exactly that envelope.  Together with the contracts of
/// `encode_envelope` and `decode_envelope`, this says a node always
/// understands its own traffic, and traffic from any node that encodes the
/// same way.
pub proof fn lemma_codec_round_trip(e: EnvelopeModel)
    ensures
        s_parse_envelope(enc_envelope(e)) == Some(e),
{
    match e {
        EnvelopeModel::Request { mode } => {
            lemma_rt_request(mode);
        },
        EnvelopeModel::Response { mode, data, receiver } => {
            lemma_rt_response(mode, data, receiver);
        },
    }
}

} // verus!
