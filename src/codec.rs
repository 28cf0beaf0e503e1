//! The payload framing used across the plugin boundary.
//!
//! ```text
//! Communication := tag:u8 body
//!   tag = 0 -> Inputs: count:u32 then `count` sized strings
//!   tag = 1 -> Output: one sized string
//! sized string  := len:u32 then `len` UTF-8 bytes
//! ```
//! All integers are little-endian.
use vstd::prelude::*;
use vstd::utf8::{decode_utf8, encode_utf8, valid_utf8};

verus! {

broadcast use {vstd::utf8::encode_utf8_valid_utf8, vstd::utf8::encode_utf8_decode_utf8};

/// A message that crosses the plugin boundary.
pub enum Communication {
    /// The strings handed to a plugin function.
    Inputs(Vec<String>),
    /// The single string that a plugin function returns.
    Output(String),
}

/// What a `Communication` stands for, as plain character sequences.
pub enum Payload {
    Inputs(Seq<Seq<char>>),
    Output(Seq<char>),
}

/// Why a byte buffer is not a well-formed message.
#[derive(Clone, Copy, Debug, PartialEq, Eq, Structural)]
pub enum CodecError {
    /// The buffer ends before a tag, a length prefix or the bytes that a prefix announces.
    Truncated,
    /// A string's bytes are not valid UTF-8.
    InvalidUtf8,
    /// The first byte is neither 0 nor 1.
    UnknownTag { tag: u8 },
}

pub open spec fn strings_view(v: Seq<String>) -> Seq<Seq<char>> {
    v.map_values(|s: String| s@)
}

impl View for Communication {
    type V = Payload;

    open spec fn view(&self) -> Payload {
        match self {
            Communication::Inputs(v) => Payload::Inputs(strings_view(v@)),
            Communication::Output(s) => Payload::Output(s@),
        }
    }
}

pub const TAG_INPUTS: u8 = 0;

pub const TAG_OUTPUT: u8 = 1;

pub const U32_LIMIT: u64 = 4294967295;

/// The four little-endian bytes of `n`.
pub open spec fn u32_le(n: nat) -> Seq<u8> {
    seq![(n % 256) as u8, ((n / 256) % 256) as u8, ((n / 65536) % 256) as u8, ((n / 16777216) % 256) as u8]
}

/// The little-endian number held in `b[at..at + 4]`.
pub open spec fn read_u32(b: Seq<u8>, at: int) -> nat {
    (b[at] + 256 * b[at + 1] + 65536 * b[at + 2] + 16777216 * b[at + 3]) as nat
}

/// A string framed by its byte length.
pub open spec fn sized(s: Seq<char>) -> Seq<u8> {
    u32_le(encode_utf8(s).len()) + encode_utf8(s)
}

/// The sized strings of `v`, one after the other.
pub open spec fn sized_all(v: Seq<Seq<char>>) -> Seq<u8>
    decreases v.len(),
{
    if v.len() == 0 {
        seq![]
    } else {
        sized_all(v.drop_last()) + sized(v.last())
    }
}

/// The bytes of a message.
pub open spec fn encode_payload(p: Payload) -> Seq<u8> {
    match p {
        Payload::Inputs(v) => seq![TAG_INPUTS] + u32_le(v.len()) + sized_all(v),
        Payload::Output(s) => seq![TAG_OUTPUT] + sized(s),
    }
}

/// Every length in the message fits in its 32-bit prefix.
pub open spec fn encodable(p: Payload) -> bool {
    match p {
        Payload::Inputs(v) => v.len() <= U32_LIMIT && forall|i: int|
            0 <= i < v.len() ==> #[trigger] encode_utf8(v[i]).len() <= U32_LIMIT,
        Payload::Output(s) => encode_utf8(s).len() <= U32_LIMIT,
    }
}

/// Reads one sized string at `at`: the string and where the next item starts.
pub open spec fn parse_sized(b: Seq<u8>, at: int) -> Result<(Seq<char>, int), CodecError> {
    if at + 4 > b.len() {
        Err(CodecError::Truncated)
    } else if at + 4 + read_u32(b, at) > b.len() {
        Err(CodecError::Truncated)
    } else {
        let body = b.subrange(at + 4, at + 4 + read_u32(b, at));
        if valid_utf8(body) {
            Ok((decode_utf8(body), at + 4 + read_u32(b, at)))
        } else {
            Err(CodecError::InvalidUtf8)
        }
    }
}

/// Reads `count` sized strings one after the other, starting at `at`.
pub open spec fn parse_sized_all(b: Seq<u8>, at: int, count: nat) -> Result<
    (Seq<Seq<char>>, int),
    CodecError,
>
    decreases count,
{
    if count == 0 {
        Ok((seq![], at))
    } else {
        match parse_sized_all(b, at, (count - 1) as nat) {
            Err(e) => Err(e),
            Ok((v, next)) => match parse_sized(b, next) {
                Err(e) => Err(e),
                Ok((s, end)) => Ok((v.push(s), end)),
            },
        }
    }
}

/// The message at the start of `b`; bytes after it are not read.
pub open spec fn parse_payload(b: Seq<u8>) -> Result<Payload, CodecError> {
    if b.len() == 0 {
        Err(CodecError::Truncated)
    } else if b[0] == TAG_INPUTS {
        if b.len() < 5 {
            Err(CodecError::Truncated)
        } else {
            match parse_sized_all(b, 5, read_u32(b, 1)) {
                Err(e) => Err(e),
                Ok((v, _)) => Ok(Payload::Inputs(v)),
            }
        }
    } else if b[0] == TAG_OUTPUT {
        match parse_sized(b, 1) {
            Err(e) => Err(e),
            Ok((s, _)) => Ok(Payload::Output(s)),
        }
    } else {
        Err(CodecError::UnknownTag { tag: b[0] })
    }
}

proof fn lemma_u32_le(n: nat)
    requires
        n <= U32_LIMIT,
    ensures
        read_u32(u32_le(n), 0) == n,
{
    let b = u32_le(n);
    assert(b[0] == n % 256);
    assert(b[1] == (n / 256) % 256);
    assert(b[2] == (n / 65536) % 256);
    assert(b[3] == (n / 16777216) % 256);
    assert(n % 256 + 256 * ((n / 256) % 256) + 65536 * ((n / 65536) % 256) + 16777216 * ((n
        / 16777216) % 256) == n) by (nonlinear_arith)
        requires
            n <= U32_LIMIT,
    ;
}

proof fn lemma_parse_sized(b: Seq<u8>, at: int, s: Seq<char>)
    requires
        0 <= at,
        at + sized(s).len() <= b.len(),
        b.subrange(at, at + sized(s).len()) == sized(s),
        encode_utf8(s).len() <= U32_LIMIT,
    ensures
        parse_sized(b, at) == Ok::<(Seq<char>, int), CodecError>((s, at + sized(s).len())),
{
    let e = encode_utf8(s);
    let n = e.len();
    lemma_u32_le(n);
    let w = b.subrange(at, at + sized(s).len());
    assert(read_u32(b, at) == read_u32(w, 0)) by {
        assert(b[at] == w[0]);
        assert(b[at + 1] == w[1]);
        assert(b[at + 2] == w[2]);
        assert(b[at + 3] == w[3]);
        assert(w =~= u32_le(n) + e);
        assert(w[0] == u32_le(n)[0]);
        assert(w[1] == u32_le(n)[1]);
        assert(w[2] == u32_le(n)[2]);
        assert(w[3] == u32_le(n)[3]);
    }
    assert(read_u32(w, 0) == read_u32(u32_le(n), 0)) by {
        assert(w =~= u32_le(n) + e);
        assert(w[0] == u32_le(n)[0]);
        assert(w[1] == u32_le(n)[1]);
        assert(w[2] == u32_le(n)[2]);
        assert(w[3] == u32_le(n)[3]);
    }
    assert(b.subrange(at + 4, at + 4 + n) =~= e) by {
        assert(w.subrange(4, 4 + n as int) =~= e);
        assert(b.subrange(at + 4, at + 4 + n) =~= w.subrange(4, 4 + n as int));
    }
}

proof fn lemma_parse_sized_all(b: Seq<u8>, at: int, v: Seq<Seq<char>>)
    requires
        0 <= at,
        at + sized_all(v).len() <= b.len(),
        b.subrange(at, at + sized_all(v).len()) == sized_all(v),
        forall|i: int| 0 <= i < v.len() ==> #[trigger] encode_utf8(v[i]).len() <= U32_LIMIT,
    ensures
        parse_sized_all(b, at, v.len()) == Ok::<(Seq<Seq<char>>, int), CodecError>(
            (v, at + sized_all(v).len()),
        ),
    decreases v.len(),
{
    if v.len() > 0 {
        let init = v.drop_last();
        let k = sized_all(init).len();
        let whole = sized_all(v);
        assert(whole == sized_all(init) + sized(v.last()));
        assert(b.subrange(at, at + k) =~= whole.subrange(0, k as int));
        assert(whole.subrange(0, k as int) =~= sized_all(init));
        assert(forall|i: int| 0 <= i < init.len() ==> init[i] == v[i]);
        lemma_parse_sized_all(b, at, init);
        assert(b.subrange(at + k, at + k + sized(v.last()).len()) =~= whole.subrange(
            k as int,
            whole.len() as int,
        ));
        assert(whole.subrange(k as int, whole.len() as int) =~= sized(v.last()));
        assert(encode_utf8(v[v.len() - 1]).len() <= U32_LIMIT);
        lemma_parse_sized(b, at + k, v.last());
        assert(init.push(v.last()) =~= v);
    } else {
        assert(v =~= seq![]);
    }
}

/// Decoding the encoding of a message gives the message back.
pub proof fn lemma_round_trip(p: Payload)
    requires
        encodable(p),
    ensures
        parse_payload(encode_payload(p)) == Ok::<Payload, CodecError>(p),
{
    let b = encode_payload(p);
    match p {
        Payload::Inputs(v) => {
            lemma_u32_le(v.len());
            assert(read_u32(b, 1) == read_u32(u32_le(v.len()), 0));
            assert(b.subrange(5, 5 + sized_all(v).len() as int) =~= sized_all(v));
            lemma_parse_sized_all(b, 5, v);
        },
        Payload::Output(s) => {
            assert(b.subrange(1, 1 + sized(s).len() as int) =~= sized(s));
            lemma_parse_sized(b, 1, s);
        },
    }
}


proof fn lemma_error_persists(b: Seq<u8>, at: int, i: nat, j: nat)
    requires
        i <= j,
        parse_sized_all(b, at, i) is Err,
    ensures
        parse_sized_all(b, at, j) == parse_sized_all(b, at, i),
    decreases j - i,
{
    if i < j {
        lemma_error_persists(b, at, i, (j - 1) as nat);
    }
}

/// Relies on `std::str::from_utf8`: it accepts exactly the valid UTF-8 buffers,
/// and the string it gives back holds those bytes.
#[verifier::external_body]
fn utf8_string(b: &[u8]) -> (r: Option<String>)
    ensures
        r is Some <==> valid_utf8(b@),
        r is Some ==> encode_utf8(r->Some_0@) == b@,
{
    match std::str::from_utf8(b) {
        Ok(s) => Some(s.to_string()),
        Err(_) => None,
    }
}

fn push_u32(out: &mut Vec<u8>, n: u32)
    ensures
        final(out)@ == old(out)@ + u32_le(n as nat),
{
    out.push((n % 256) as u8);
    out.push(((n / 256) % 256) as u8);
    out.push(((n / 65536) % 256) as u8);
    out.push(((n / 16777216) % 256) as u8);
    assert(out@ =~= old(out)@ + u32_le(n as nat));
}

fn push_bytes(out: &mut Vec<u8>, b: &[u8])
    ensures
        final(out)@ == old(out)@ + b@,
{
    let ghost start = out@;
    let mut i: usize = 0;
    while i < b.len()
        invariant
            i <= b@.len(),
            out@ == start + b@.subrange(0, i as int),
        decreases b@.len() - i,
    {
        out.push(b[i]);
        i = i + 1;
        assert(out@ =~= start + b@.subrange(0, i as int));
    }
    assert(b@.subrange(0, i as int) =~= b@);
}

fn push_sized(out: &mut Vec<u8>, s: &String)
    requires
        encode_utf8(s@).len() <= U32_LIMIT,
    ensures
        final(out)@ == old(out)@ + sized(s@),
{
    let b = s.as_str().as_bytes();
    push_u32(out, b.len() as u32);
    push_bytes(out, b);
    assert(out@ =~= old(out)@ + sized(s@));
}

/// The number held little-endian in `b[at..at + 4]`.
fn read_u32_at(b: &[u8], at: usize) -> (r: u64)
    requires
        at + 4 <= b@.len(),
    ensures
        r == read_u32(b@, at as int),
        r <= U32_LIMIT,
{
    let r = b[at] as u64 + 256 * (b[at + 1] as u64) + 65536 * (b[at + 2] as u64) + 16777216 * (
    b[at + 3] as u64);
    r
}

/// Reads the sized string at `at`.
fn read_sized(b: &[u8], at: usize) -> (r: Result<(String, usize), CodecError>)
    requires
        at <= b@.len(),
    ensures
        match parse_sized(b@, at as int) {
            Ok((s, next)) => r is Ok && r->Ok_0.0@ == s && r->Ok_0.1 == next,
            Err(e) => r == Err::<(String, usize), CodecError>(e),
        },
{
    if b.len() - at < 4 {
        return Err(CodecError::Truncated);
    }
    let n = read_u32_at(b, at);
    if n > (b.len() - at - 4) as u64 {
        return Err(CodecError::Truncated);
    }
    let end = at + 4 + n as usize;
    let body = vstd::slice::slice_subrange(b, at + 4, end);
    match utf8_string(body) {
        Some(s) => Ok((s, end)),
        None => Err(CodecError::InvalidUtf8),
    }
}

/// The bytes of the `Inputs` message that carries `v`.
pub fn encode_inputs(v: &[String]) -> (r: Vec<u8>)
    requires
        encodable(Payload::Inputs(strings_view(v@))),
    ensures
        r@ == encode_payload(Payload::Inputs(strings_view(v@))),
{
    let mut out: Vec<u8> = Vec::new();
    out.push(TAG_INPUTS);
    push_u32(&mut out, v.len() as u32);
    let ghost sv = strings_view(v@);
    let mut i: usize = 0;
    while i < v.len()
        invariant
            i <= v@.len(),
            sv == strings_view(v@),
            encodable(Payload::Inputs(sv)),
            out@ == seq![TAG_INPUTS] + u32_le(v@.len()) + sized_all(sv.take(i as int)),
        decreases v@.len() - i,
    {
        assert(encode_utf8(sv[i as int]).len() <= U32_LIMIT);
        push_sized(&mut out, &v[i]);
        assert(sv.take(i + 1).drop_last() =~= sv.take(i as int));
        i = i + 1;
    }
    assert(sv.take(i as int) =~= sv);
    out
}

impl Communication {
    /// The bytes of this message.
    pub fn to_bytes(&self) -> (r: Vec<u8>)
        requires
            encodable(self@),
        ensures
            r@ == encode_payload(self@),
    {
        match self {
            Communication::Inputs(v) => encode_inputs(v.as_slice()),
            Communication::Output(s) => {
                let mut out: Vec<u8> = Vec::new();
                out.push(TAG_OUTPUT);
                push_sized(&mut out, s);
                out
            },
        }
    }

    /// The message at the start of `b`, or why there is none.
    pub fn from_bytes(b: &[u8]) -> (r: Result<Communication, CodecError>)
        ensures
            r is Ok <==> parse_payload(b@) is Ok,
            r is Ok ==> parse_payload(b@) == Ok::<Payload, CodecError>(r->Ok_0@),
            r is Err ==> parse_payload(b@) == Err::<Payload, CodecError>(r->Err_0),
    {
        if b.len() == 0 {
            return Err(CodecError::Truncated);
        }
        let tag = b[0];
        if tag == TAG_INPUTS {
            if b.len() < 5 {
                return Err(CodecError::Truncated);
            }
            let count = read_u32_at(b, 1);
            let mut out: Vec<String> = Vec::new();
            let mut pos: usize = 5;
            let mut i: u64 = 0;
            assert(strings_view(out@) =~= seq![]);
            while i < count
                invariant
                    b@.len() >= 5,
                    b@[0] == TAG_INPUTS,
                    count == read_u32(b@, 1),
                    i <= count,
                    pos <= b@.len(),
                    parse_sized_all(b@, 5, i as nat) == Ok::<(Seq<Seq<char>>, int), CodecError>(
                        (strings_view(out@), pos as int),
                    ),
                decreases count - i,
            {
                match read_sized(b, pos) {
                    Ok((s, next)) => {
                        proof {
                            assert(strings_view(out@.push(s)) =~= strings_view(out@).push(s@));
                        }
                        out.push(s);
                        pos = next;
                        i = i + 1;
                    },
                    Err(e) => {
                        proof {
                            assert(parse_sized_all(b@, 5, (i + 1) as nat) == Err::<
                                (Seq<Seq<char>>, int),
                                CodecError,
                            >(e));
                            lemma_error_persists(b@, 5, (i + 1) as nat, count as nat);
                            assert(read_u32(b@, 1) == count as nat);
                            assert(parse_sized_all(b@, 5, read_u32(b@, 1)) == Err::<
                                (Seq<Seq<char>>, int),
                                CodecError,
                            >(e));
                        }
                        return Err(e);
                    },
                }
            }
            Ok(Communication::Inputs(out))
        } else if tag == TAG_OUTPUT {
            match read_sized(b, 1) {
                Ok((s, _)) => Ok(Communication::Output(s)),
                Err(e) => Err(e),
            }
        } else {
            Err(CodecError::UnknownTag { tag })
        }
    }
}

/// Plugin side: the strings of an `Inputs` message, or `None` for any other buffer.
pub fn get_input_strings(input: &[u8]) -> (r: Option<Vec<String>>)
    ensures
        r is Some <==> (exists|v: Seq<Seq<char>>|
            parse_payload(input@) == Ok::<Payload, CodecError>(Payload::Inputs(v))),
        r is Some ==> parse_payload(input@) == Ok::<Payload, CodecError>(
            Payload::Inputs(strings_view(r->Some_0@)),
        ),
{
    match Communication::from_bytes(input) {
        Ok(Communication::Inputs(v)) => Some(v),
        _ => None,
    }
}

/// Plugin side: the bytes of the `Output` message that carries `output`.
pub fn pack_into_output(output: String) -> (r: Vec<u8>)
    requires
        encode_utf8(output@).len() <= U32_LIMIT,
    ensures
        r@ == encode_payload(Payload::Output(output@)),
{
    Communication::Output(output).to_bytes()
}

} // verus!
