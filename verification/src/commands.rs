//! The command parser: one line of user input becomes one command.
//!
//! The surface is the free-text table the node answers to: `ls p`, `ls r`,
//! `ls r all`, `ls r <peer>`, `create r <name>|<ingredients>|<instructions>`,
//! `publish r <id>`; anything else is unrecognized.  Malformed arguments — a
//! create with too few pipe-separated fields, a publish whose id is not a
//! number — parse to their own variants so the caller can report them
//! without mutating any state.
//!
//! Byte constants are ASCII: `124` is `|`, `43` is `+`, `32` the space.

use vstd::prelude::*;

use crate::codec::is_digit;
use crate::codec::s_digits;

verus! {

/// One parsed input line.
pub enum Command {
    /// `ls p`: show the known peers.
    ListPeers,
    /// `ls r` with no argument: show the local catalog.
    ListLocal,
    /// `ls r all`: broadcast a request every node may answer.
    ListAll,
    /// `ls r <peer>`: broadcast a request addressed to one peer.
    ListOne(Vec<u8>),
    /// `create r name|ingredients|instructions`: append a private record.
    Create { name: Vec<u8>, ingredients: Vec<u8>, instructions: Vec<u8> },
    /// A `create r` line with fewer than three fields: reported, no change.
    CreateMalformed,
    /// `publish r <id>`: mark the record with that id public.
    Publish(u64),
    /// A `publish r` line whose id is not a number: reported, no change.
    PublishInvalid,
    /// Anything else: reported, no change.
    Unknown,
}

/// The mathematical value of a `Command`.
pub ghost enum CommandModel {
    ListPeers,
    ListLocal,
    ListAll,
    ListOne(Seq<u8>),
    Create { name: Seq<u8>, ingredients: Seq<u8>, instructions: Seq<u8> },
    CreateMalformed,
    Publish(u64),
    PublishInvalid,
    Unknown,
}

impl View for Command {
    type V = CommandModel;

    open spec fn view(&self) -> CommandModel {
        match self {
            Command::ListPeers => CommandModel::ListPeers,
            Command::ListLocal => CommandModel::ListLocal,
            Command::ListAll => CommandModel::ListAll,
            Command::ListOne(p) => CommandModel::ListOne(p@),
            Command::Create { name, ingredients, instructions } => CommandModel::Create {
                name: name@,
                ingredients: ingredients@,
                instructions: instructions@,
            },
            Command::CreateMalformed => CommandModel::CreateMalformed,
            Command::Publish(id) => CommandModel::Publish(*id),
            Command::PublishInvalid => CommandModel::PublishInvalid,
            Command::Unknown => CommandModel::Unknown,
        }
    }
}

impl DeepView for Command {
    type V = CommandModel;

    open spec fn deep_view(&self) -> CommandModel {
        self.view()
    }
}

/// ASCII whitespace, as `str::trim` sees it.
pub open spec fn is_ws(b: u8) -> bool {
    b == 9 || b == 10 || b == 11 || b == 12 || b == 13 || b == 32
}

/// A line without its leading whitespace.
pub open spec fn trim_front(s: Seq<u8>) -> Seq<u8>
    decreases s.len(),
{
    if s.len() > 0 && is_ws(s.first()) {
        trim_front(s.drop_first())
    } else {
        s
    }
}

/// A line without its trailing whitespace.
pub open spec fn trim_end(s: Seq<u8>) -> Seq<u8>
    decreases s.len(),
{
    if s.len() > 0 && is_ws(s.last()) {
        trim_end(s.drop_last())
    } else {
        s
    }
}

/// A line without leading and trailing whitespace.
pub open spec fn trimmed(s: Seq<u8>) -> Seq<u8> {
    trim_end(trim_front(s))
}

/// The first position of `b` in `s` at or after `i`, if any.
pub open spec fn find_byte_spec(s: Seq<u8>, i: int, b: u8) -> Option<int>
    decreases s.len() - i,
{
    if !(0 <= i < s.len()) {
        None
    } else if s[i] == b {
        Some(i)
    } else {
        find_byte_spec(s, i + 1, b)
    }
}

/// `ls p`
pub open spec fn lit_ls_p() -> Seq<u8> {
    seq![108u8, 115, 32, 112]
}

/// `ls r`
pub open spec fn lit_ls_r() -> Seq<u8> {
    seq![108u8, 115, 32, 114]
}

/// `ls r ` — with the trailing space.
pub open spec fn lit_ls_r_sp() -> Seq<u8> {
    seq![108u8, 115, 32, 114, 32]
}

/// `all`
pub open spec fn lit_all() -> Seq<u8> {
    seq![97u8, 108, 108]
}

/// `create r`
pub open spec fn lit_create_r() -> Seq<u8> {
    seq![99u8, 114, 101, 97, 116, 101, 32, 114]
}

/// `publish r`
pub open spec fn lit_publish_r() -> Seq<u8> {
    seq![112u8, 117, 98, 108, 105, 115, 104, 32, 114]
}

pub open spec fn starts_with(s: Seq<u8>, prefix: Seq<u8>) -> bool {
    prefix.len() <= s.len() && s.subrange(0, prefix.len() as int) == prefix
}

/// A decimal unsigned integer as `u64::from_str` accepts it: an optional
/// leading `+`, then one or more digits (leading zeros allowed), rejecting
/// values past `u64::MAX`.
pub open spec fn parse_decimal(t: Seq<u8>) -> Option<u64> {
    if t.len() == 0 {
        None
    } else {
        let body = if t[0] == 43 {
            t.drop_first()
        } else {
            t
        };
        if body.len() == 0 {
            None
        } else {
            match s_digits(body, 0, 0) {
                None => None,
                Some((v, j)) => if j == body.len() {
                    Some(v)
                } else {
                    None
                },
            }
        }
    }
}

/// What a `create r` argument list means: the text after the command word,
/// trimmed, split at the first two `|` separators; fields past the third are
/// ignored, and fewer than three fields is malformed.
pub open spec fn parse_create_args(rest: Seq<u8>) -> CommandModel {
    let t = trimmed(rest);
    match find_byte_spec(t, 0, 124) {
        None => CommandModel::CreateMalformed,
        Some(p1) => match find_byte_spec(t, p1 + 1, 124) {
            None => CommandModel::CreateMalformed,
            Some(p2) => {
                let end = match find_byte_spec(t, p2 + 1, 124) {
                    None => t.len() as int,
                    Some(p3) => p3,
                };
                CommandModel::Create {
                    name: t.subrange(0, p1),
                    ingredients: t.subrange(p1 + 1, p2),
                    instructions: t.subrange(p2 + 1, end),
                }
            },
        },
    }
}

/// The meaning of one input line, exactly as the node dispatches it.
pub open spec fn parse_command_spec(line: Seq<u8>) -> CommandModel {
    if line == lit_ls_p() {
        CommandModel::ListPeers
    } else if starts_with(line, lit_ls_r()) {
        if starts_with(line, lit_ls_r_sp()) {
            let rest = line.subrange(5, line.len() as int);
            if rest == lit_all() {
                CommandModel::ListAll
            } else {
                CommandModel::ListOne(rest)
            }
        } else {
            CommandModel::ListLocal
        }
    } else if starts_with(line, lit_create_r()) {
        parse_create_args(line.subrange(8, line.len() as int))
    } else if starts_with(line, lit_publish_r()) {
        match parse_decimal(trimmed(line.subrange(9, line.len() as int))) {
            Some(id) => CommandModel::Publish(id),
            None => CommandModel::PublishInvalid,
        }
    } else {
        CommandModel::Unknown
    }
}

// ---------------------------------------------------------------------------
// The executable parser.
// ---------------------------------------------------------------------------
fn is_ws_b(b: u8) -> (r: bool)
    ensures
        r == is_ws(b),
{
    b == 9 || b == 10 || b == 11 || b == 12 || b == 13 || b == 32
}

/// A fresh vector holding `s[a..b]`.
fn copy_range(s: &[u8], a: usize, b: usize) -> (v: Vec<u8>)
    requires
        a <= b <= s@.len(),
    ensures
        v@ == s@.subrange(a as int, b as int),
{
    let mut v: Vec<u8> = Vec::new();
    let mut i: usize = a;
    while i < b
        invariant
            a <= i <= b <= s@.len(),
            v@ == s@.subrange(a as int, i as int),
        decreases b - i,
    {
        v.push(s[i]);
        proof {
            assert(v@ =~= s@.subrange(a as int, i + 1));
        }
        i += 1;
    }
    v
}

/// Leading whitespace reaches exactly to `k`, so that is where the trim
/// starts.
proof fn lemma_trim_front_window(s: Seq<u8>, k: int)
    requires
        0 <= k <= s.len(),
        forall|j: int| 0 <= j < k ==> is_ws(#[trigger] s[j]),
        k == s.len() || !is_ws(s[k]),
    ensures
        trim_front(s) == s.subrange(k, s.len() as int),
    decreases k,
{
    if k == 0 {
        assert(trim_front(s) =~= s.subrange(0, s.len() as int));
    } else {
        assert(is_ws(s[0]));
        let d = s.drop_first();
        assert forall|j: int| 0 <= j < k - 1 implies is_ws(#[trigger] d[j]) by {
            assert(d[j] == s[j + 1]);
        }
        lemma_trim_front_window(d, k - 1);
        assert(d.subrange(k - 1, d.len() as int) =~= s.subrange(k, s.len() as int));
    }
}

/// Trailing whitespace reaches back exactly to `k`, so that is where the
/// trim ends.
proof fn lemma_trim_end_window(s: Seq<u8>, k: int)
    requires
        0 <= k <= s.len(),
        forall|j: int| k <= j < s.len() ==> is_ws(#[trigger] s[j]),
        k == 0 || !is_ws(s[k - 1]),
    ensures
        trim_end(s) == s.subrange(0, k),
    decreases s.len(),
{
    if k == s.len() {
        assert(trim_end(s) =~= s.subrange(0, k));
    } else {
        assert(is_ws(s.last()));
        let d = s.drop_last();
        lemma_trim_end_window(d, k);
        assert(d.subrange(0, k) =~= s.subrange(0, k));
    }
}

/// The trimmed copy of a line.
fn trim_slice(s: &[u8]) -> (t: Vec<u8>)
    ensures
        t@ == trimmed(s@),
{
    let mut start: usize = 0;
    while start < s.len() && is_ws_b(s[start])
        invariant
            start <= s@.len(),
            forall|j: int| 0 <= j < start ==> is_ws(#[trigger] s@[j]),
        decreases s@.len() - start,
    {
        start += 1;
    }
    proof {
        lemma_trim_front_window(s@, start as int);
    }
    let ghost w = s@.subrange(start as int, s@.len() as int);
    let mut end: usize = s.len();
    while end > start && is_ws_b(s[end - 1])
        invariant
            start <= end <= s@.len(),
            w == s@.subrange(start as int, s@.len() as int),
            forall|j: int| end <= j < s@.len() ==> is_ws(#[trigger] s@[j]),
        decreases end,
    {
        end -= 1;
    }
    proof {
        assert forall|j: int| end - start <= j < w.len() implies is_ws(#[trigger] w[j]) by {
            assert(w[j] == s@[start + j]);
        }
        if end > start {
            assert(w[end - start - 1] == s@[end - 1]);
        }
        lemma_trim_end_window(w, end - start);
        assert(w.subrange(0, end - start) =~= s@.subrange(start as int, end as int));
    }
    copy_range(s, start, end)
}

/// The first position of `b` in `s` at or after `i`, if any.
fn find_byte(s: &[u8], i: usize, b: u8) -> (r: Option<usize>)
    requires
        i <= s@.len(),
    ensures
        match r {
            Some(k) => i <= k < s@.len() && find_byte_spec(s@, i as int, b) == Some(k as int),
            None => find_byte_spec(s@, i as int, b) is None,
        },
{
    let mut j: usize = i;
    loop
        invariant
            i <= j <= s@.len(),
            find_byte_spec(s@, i as int, b) == find_byte_spec(s@, j as int, b),
        decreases s@.len() - j,
    {
        if j >= s.len() {
            return None;
        }
        if s[j] == b {
            return Some(j);
        }
        j += 1;
    }
}

fn lit_vec_ls_p() -> (v: Vec<u8>)
    ensures
        v@ == lit_ls_p(),
{
    let mut v: Vec<u8> = Vec::new();
    v.push(108);
    v.push(115);
    v.push(32);
    v.push(112);
    proof {
        assert(v@ =~= lit_ls_p());
    }
    v
}

fn lit_vec_ls_r() -> (v: Vec<u8>)
    ensures
        v@ == lit_ls_r(),
{
    let mut v: Vec<u8> = Vec::new();
    v.push(108);
    v.push(115);
    v.push(32);
    v.push(114);
    proof {
        assert(v@ =~= lit_ls_r());
    }
    v
}

fn lit_vec_ls_r_sp() -> (v: Vec<u8>)
    ensures
        v@ == lit_ls_r_sp(),
{
    let mut v: Vec<u8> = Vec::new();
    v.push(108);
    v.push(115);
    v.push(32);
    v.push(114);
    v.push(32);
    proof {
        assert(v@ =~= lit_ls_r_sp());
    }
    v
}

fn lit_vec_all() -> (v: Vec<u8>)
    ensures
        v@ == lit_all(),
{
    let mut v: Vec<u8> = Vec::new();
    v.push(97);
    v.push(108);
    v.push(108);
    proof {
        assert(v@ =~= lit_all());
    }
    v
}

fn lit_vec_create_r() -> (v: Vec<u8>)
    ensures
        v@ == lit_create_r(),
{
    let mut v: Vec<u8> = Vec::new();
    v.push(99);
    v.push(114);
    v.push(101);
    v.push(97);
    v.push(116);
    v.push(101);
    v.push(32);
    v.push(114);
    proof {
        assert(v@ =~= lit_create_r());
    }
    v
}

fn lit_vec_publish_r() -> (v: Vec<u8>)
    ensures
        v@ == lit_publish_r(),
{
    let mut v: Vec<u8> = Vec::new();
    v.push(112);
    v.push(117);
    v.push(98);
    v.push(108);
    v.push(105);
    v.push(115);
    v.push(104);
    v.push(32);
    v.push(114);
    proof {
        assert(v@ =~= lit_publish_r());
    }
    v
}

/// Parses a trimmed decimal id as `u64::from_str` would.
fn parse_decimal_exec(t: &[u8]) -> (r: Option<u64>)
    ensures
        r == parse_decimal(t@),
{
    if t.len() == 0 {
        return None;
    }
    let body_start: usize = if t[0] == 43 {
        1
    } else {
        0
    };
    proof {
        if t@[0] == 43 {
            assert(t@.drop_first() =~= t@.subrange(1, t@.len() as int));
        } else {
            assert(t@ =~= t@.subrange(0, t@.len() as int));
        }
    }
    if body_start == t.len() {
        return None;
    }
    let body = copy_range(t, body_start, t.len());
    match crate::codec::p_digits(body.as_slice(), 0, 0) {
        None => None,
        Some((v, j)) => {
            if j == body.len() {
                Some(v)
            } else {
                None
            }
        },
    }
}

/// Parses one input line.  The result is exactly what the dispatch table
/// of the node says that line means.
pub fn parse_command(line: &[u8]) -> (c: Command)
    ensures
        c@ == parse_command_spec(line@),
{
    proof {
        assert(line@.len() == line.len());
    }
    let lp = lit_vec_ls_p();
    if crate::bytes_eq(line, lp.as_slice()) {
        return Command::ListPeers;
    }
    let lr = lit_vec_ls_r();
    if crate::codec::match_bytes(line, 0, lr.as_slice()) {
        let lrs = lit_vec_ls_r_sp();
        if crate::codec::match_bytes(line, 0, lrs.as_slice()) {
            let rest = copy_range(line, 5, line.len());
            let la = lit_vec_all();
            if crate::bytes_eq(rest.as_slice(), la.as_slice()) {
                return Command::ListAll;
            }
            return Command::ListOne(rest);
        }
        return Command::ListLocal;
    }
    let lc = lit_vec_create_r();
    if crate::codec::match_bytes(line, 0, lc.as_slice()) {
        let rest = copy_range(line, 8, line.len());
        let t = trim_slice(rest.as_slice());
        proof {
            assert(t@.len() == vstd::std_specs::vec::spec_vec_len(&t));
        }
        let p1 = match find_byte(t.as_slice(), 0, 124) {
            None => {
                return Command::CreateMalformed;
            },
            Some(k) => k,
        };
        let p2 = match find_byte(t.as_slice(), p1 + 1, 124) {
            None => {
                return Command::CreateMalformed;
            },
            Some(k) => k,
        };
        let end = match find_byte(t.as_slice(), p2 + 1, 124) {
            None => t.len(),
            Some(k) => k,
        };
        let name = copy_range(t.as_slice(), 0, p1);
        let ingredients = copy_range(t.as_slice(), p1 + 1, p2);
        let instructions = copy_range(t.as_slice(), p2 + 1, end);
        return Command::Create { name, ingredients, instructions };
    }
    let lq = lit_vec_publish_r();
    if crate::codec::match_bytes(line, 0, lq.as_slice()) {
        let rest = copy_range(line, 9, line.len());
        let t = trim_slice(rest.as_slice());
        return match parse_decimal_exec(t.as_slice()) {
            Some(id) => Command::Publish(id),
            None => Command::PublishInvalid,
        };
    }
    Command::Unknown
}

} // verus!
