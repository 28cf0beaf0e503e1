//! The host's side of a plugin call: framing the input, placing it in the
//! plugin's linear memory, and reading the answer back.
use vstd::prelude::*;
use vstd::utf8::encode_utf8;
use crate::codec::{
    encodable, encode_inputs, encode_payload, parse_payload, sized, sized_all, strings_view,
    Communication, Payload,
};
use crate::error::Error;

verus! {

/// The largest input, in bytes, that is handed to a plugin.
pub const MAX_PLUGIN_INPUT: u64 = 2147483647;

/// The size of a page of linear memory.
pub const PAGE_SIZE: u64 = 65536;

/// The framed input of `v` fits the plugin's 32-bit signed lengths.
pub open spec fn plugin_input_fits(v: Seq<Seq<char>>) -> bool {
    5 + sized_all(v).len() <= MAX_PLUGIN_INPUT
}

/// How many pages to add so that `len` bytes fit past the old end of memory.
pub open spec fn pages_for(len: nat) -> nat {
    len / (PAGE_SIZE as nat) + (if len % (PAGE_SIZE as nat) == 0 {
        0nat
    } else {
        1nat
    }) + 1
}

/// Where the input goes and how far memory grows, for one plugin call.
#[derive(Clone, Copy, Debug, PartialEq, Eq, Structural)]
pub struct PluginCall {
    /// The old size of memory, where the input is written.
    pub input_ptr: i32,
    /// The input's length in bytes.
    pub input_len: i32,
    /// The pages added to memory before the input is written.
    pub grow_pages: u64,
}

proof fn lemma_sized_all_prefix(v: Seq<Seq<char>>, i: int)
    requires
        0 <= i <= v.len(),
    ensures
        sized_all(v.take(i)).len() <= sized_all(v).len(),
    decreases v.len(),
{
    if i == v.len() {
        assert(v.take(i) =~= v);
    } else {
        assert(v.drop_last().take(i) =~= v.take(i));
        lemma_sized_all_prefix(v.drop_last(), i);
    }
}

proof fn lemma_sized_all_bounds(v: Seq<Seq<char>>)
    ensures
        4 * v.len() <= sized_all(v).len(),
        forall|j: int| 0 <= j < v.len() ==> 4 + #[trigger] encode_utf8(v[j]).len() <= sized_all(v).len(),
    decreases v.len(),
{
    if v.len() > 0 {
        lemma_sized_all_bounds(v.drop_last());
        assert(sized(v.last()).len() == 4 + encode_utf8(v.last()).len());
        assert forall|j: int| 0 <= j < v.len() implies 4 + #[trigger] encode_utf8(v[j]).len()
            <= sized_all(v).len() by {
            if j < v.len() - 1 {
                assert(v.drop_last()[j] == v[j]);
            }
        }
    }
}

/// An input that fits is also one whose lengths fit their prefixes.
proof fn lemma_fits_encodable(v: Seq<Seq<char>>)
    requires
        plugin_input_fits(v),
    ensures
        encodable(Payload::Inputs(v)),
{
    lemma_sized_all_bounds(v);
}

/// The framed `Inputs` message for a plugin, or an error when it is too large.
pub fn plugin_input(inputs: &[String]) -> (r: Result<Vec<u8>, Error>)
    ensures
        r is Ok <==> plugin_input_fits(strings_view(inputs@)),
        r is Ok ==> r->Ok_0@ == encode_payload(Payload::Inputs(strings_view(inputs@))),
        r is Err ==> r->Err_0 is WasmMemoryAccess,
{
    let ghost sv = strings_view(inputs@);
    let mut total: u64 = 5;
    let mut i: usize = 0;
    while i < inputs.len()
        invariant
            i <= inputs@.len(),
            sv == strings_view(inputs@),
            total == 5 + sized_all(sv.take(i as int)).len(),
            total <= MAX_PLUGIN_INPUT,
        decreases inputs@.len() - i,
    {
        let item = inputs[i].as_str();
        let n = item.as_bytes().len();
        assert(sv[i as int] == item@);
        assert(n == encode_utf8(item@).len());
        assert(sv.take(i + 1).drop_last() =~= sv.take(i as int));
        assert(sized(sv[i as int]).len() == 4 + n);
        if n as u64 > MAX_PLUGIN_INPUT - total || MAX_PLUGIN_INPUT - total - (n as u64) < 4 {
            proof {
                lemma_sized_all_prefix(sv, i + 1);
            }
            return Err(
                Error::WasmMemoryAccess {
                    e: String::from_str("the plugin input is larger than 2147483647 bytes"),
                },
            );
        }
        total = total + 4 + n as u64;
        i = i + 1;
    }
    assert(sv.take(i as int) =~= sv);
    proof {
        lemma_fits_encodable(sv);
    }
    Ok(encode_inputs(inputs))
}

/// The plan for one call: write the input at the old end of memory, after
/// growing memory by `pages_for(input_len)` pages.
pub fn plan_plugin_call(memory_size: u64, input_len: usize) -> (r: Result<PluginCall, Error>)
    ensures
        r is Ok <==> memory_size <= MAX_PLUGIN_INPUT && input_len <= MAX_PLUGIN_INPUT,
        r is Ok ==> r->Ok_0.input_ptr == memory_size && r->Ok_0.input_len == input_len
            && r->Ok_0.grow_pages == pages_for(input_len as nat),
        r is Err ==> r->Err_0 is WasmMemoryAccess,
{
    if memory_size > MAX_PLUGIN_INPUT || input_len as u64 > MAX_PLUGIN_INPUT {
        return Err(
            Error::WasmMemoryAccess {
                e: String::from_str("the plugin's memory or input is beyond a 32-bit offset"),
            },
        );
    }
    let n = input_len as u64;
    let extra: u64 = if n % PAGE_SIZE == 0 {
        0
    } else {
        1
    };
    Ok(
        PluginCall {
            input_ptr: memory_size as i32,
            input_len: n as i32,
            grow_pages: n / PAGE_SIZE + extra + 1,
        },
    )
}

/// The start and length of the answer that a plugin reported, when it lies in memory.
pub fn output_region(memory_size: u64, ptr: i32, len: i32) -> (r: Result<(usize, usize), Error>)
    ensures
        r is Ok <==> 0 <= ptr && 0 <= len && ptr + len <= memory_size,
        r is Ok ==> r->Ok_0.0 == ptr && r->Ok_0.1 == len,
        r is Err ==> r->Err_0 is WasmMemoryAccess,
{
    if ptr < 0 || len < 0 || (ptr as u64) + (len as u64) > memory_size {
        return Err(
            Error::WasmMemoryAccess {
                e: String::from_str("the plugin's answer lies outside its memory"),
            },
        );
    }
    Ok((ptr as usize, len as usize))
}

/// The string that a plugin answered, from the bytes of its answer.
pub open spec fn plugin_answer(b: Seq<u8>, r: Result<String, Error>) -> bool {
    match parse_payload(b) {
        Ok(Payload::Output(s)) => r is Ok && r->Ok_0@ == s,
        Ok(Payload::Inputs(_)) => r == Err::<String, Error>(Error::WasmWrongTypeReturned),
        Err(e) => r == Err::<String, Error>(Error::ByparParse { e }),
    }
}

/// Decodes a plugin's answer; anything but an `Output` message is an error.
pub fn plugin_result(output: &[u8]) -> (r: Result<String, Error>)
    ensures
        plugin_answer(output@, r),
{
    match Communication::from_bytes(output) {
        Ok(Communication::Output(s)) => Ok(s),
        Ok(Communication::Inputs(_)) => Err(Error::WasmWrongTypeReturned),
        Err(e) => Err(Error::ByparParse { e }),
    }
}

} // verus!
