//! The surface between a host and a plugin that is loaded at run time: plain
//! bytes in buffers that the caller owns, and status numbers.

use vstd::prelude::*;
use vstd::utf8::{
    decode_utf8, encode_utf8, encode_utf8_decode_utf8, encode_utf8_valid_utf8, valid_utf8,
};

use crate::error::{Error, ErrorView};

verus! {

/// Version of the surface, raised on incompatible changes.
pub const ABI_VERSION: u32 = 1;

/// The greeting of the sample plugin.
pub const GREETING: &'static str = "hello from a runtime-loaded dylib";

/// The display name of the sample plugin.
pub const GREETER_NAME: &'static str = "greeter(dylib)";

/// Whether the host can use a plugin of this version.
pub fn abi_matches(version: u32) -> (res: bool)
    ensures
        res == (version == ABI_VERSION),
        res == (version == 1),
{
    version == ABI_VERSION
}

/// `src` stands at the front of the buffer and its length beside it; where it
/// does not fit, both are as they were.
pub open spec fn writes(
    src: Seq<u8>,
    before: Seq<u8>,
    after: Seq<u8>,
    before_len: usize,
    after_len: usize,
    fits: bool,
) -> bool {
    &&& fits == (src.len() <= before.len())
    &&& fits ==> after == src + before.skip(src.len() as int) && after_len == src.len()
    &&& !fits ==> after == before && after_len == before_len
}

/// Copy `src` to the front of `out_buf` and its length to `out_len`; leave
/// both alone where it does not fit.
pub fn write_out(src: &[u8], out_buf: &mut Vec<u8>, out_len: &mut usize) -> (res: bool)
    ensures
        writes(src@, old(out_buf)@, final(out_buf)@, *old(out_len), *final(out_len), res),
{
    if src.len() > out_buf.len() {
        return false;
    }
    let ghost before = out_buf@;
    let mut i: usize = 0;
    assert(out_buf@ =~= src@.take(0) + before.skip(0));
    while i < src.len()
        invariant
            i <= src@.len(),
            src@.len() <= before.len(),
            out_buf@ == src@.take(i as int) + before.skip(i as int),
        decreases src@.len() - i,
    {
        out_buf.set(i, src[i]);
        assert(out_buf@ =~= src@.take(i + 1) + before.skip(i + 1));
        i = i + 1;
    }
    assert(out_buf@ =~= src@ + before.skip(src@.len() as int));
    *out_len = src.len();
    true
}

/// What `String::from_utf8_lossy` makes of bytes.
pub uninterp spec fn lossy_text(bytes: Seq<u8>) -> Seq<char>;

/// `String::from_utf8_lossy`, made owned. The text depends on the bytes
/// alone. Of bytes that are valid UTF-8 it is their decoding; how invalid
/// bytes are replaced is left unsaid.
#[verifier::external_body]
fn from_utf8_lossy(bytes: &[u8]) -> (res: String)
    ensures
        res@ == lossy_text(bytes@),
        valid_utf8(bytes@) ==> res@ == decode_utf8(bytes@),
{
    String::from_utf8_lossy(bytes).into_owned()
}

/// The first `len` bytes of a buffer as text.
pub fn buffer_text(buf: &Vec<u8>, len: usize) -> (res: String)
    requires
        len <= buf@.len(),
    ensures
        res@ == lossy_text(buf@.take(len as int)),
        valid_utf8(buf@.take(len as int)) ==> res@ == decode_utf8(buf@.take(len as int)),
{
    let mut bytes: Vec<u8> = Vec::new();
    let mut i: usize = 0;
    while i < len
        invariant
            i <= len <= buf@.len(),
            bytes@ == buf@.take(i as int),
        decreases len - i,
    {
        bytes.push(buf[i]);
        assert(bytes@ =~= buf@.take(i + 1));
        i = i + 1;
    }
    from_utf8_lossy(bytes.as_slice())
}

/// What a plugin produced: the text in the buffer if the status is zero.
pub fn produced(status: i32, buf: &Vec<u8>, len: usize) -> (res: Result<String, Error>)
    requires
        status == 0 ==> len <= buf@.len(),
    ensures
        status == 0 ==> (res matches Ok(text) && text@ == lossy_text(buf@.take(len as int)) && (
        valid_utf8(buf@.take(len as int)) ==> text@ == decode_utf8(buf@.take(len as int)))),
        status != 0 ==> (res matches Err(error) && error.deep() == ErrorView::Other(
            "plugin produce failed"@,
        )),
{
    if status != 0 {
        return Err(Error::msg("plugin produce failed"));
    }
    Ok(buffer_text(buf, len))
}

/// The error for a plugin that could not allocate its state.
pub fn setup_failed() -> (res: Error)
    ensures
        res.deep() == ErrorView::Other("plugin setup failed"@),
{
    Error::msg("plugin setup failed")
}

/// State of the sample plugin.
pub struct Greeter {
    /// How often a greeting was asked for.
    pub invocations: usize,
}

impl Greeter {
    pub fn setup() -> (res: Greeter)
        ensures
            res.invocations == 0,
    {
        Greeter { invocations: 0 }
    }

    /// Write the display name out, if it fits.
    pub fn name(out_buf: &mut Vec<u8>, out_len: &mut usize) -> (res: bool)
        ensures
            writes(
                encode_utf8(GREETER_NAME@),
                old(out_buf)@,
                final(out_buf)@,
                *old(out_len),
                *final(out_len),
                res,
            ),
    {
        write_out(GREETER_NAME.as_bytes(), out_buf, out_len)
    }

    /// Write the greeting out; the status is zero if it fits.
    pub fn produce(&mut self, out_buf: &mut Vec<u8>, out_len: &mut usize) -> (res: i32)
        requires
            old(self).invocations < usize::MAX,
        ensures
            final(self).invocations == old(self).invocations + 1,
            res == 0 || res == -1,
            writes(
                encode_utf8(GREETING@),
                old(out_buf)@,
                final(out_buf)@,
                *old(out_len),
                *final(out_len),
                res == 0,
            ),
    {
        self.invocations = self.invocations + 1;
        if write_out(GREETING.as_bytes(), out_buf, out_len) {
            0
        } else {
            -1
        }
    }
}

/// A host that reads back what a plugin wrote out gets the same text.
pub proof fn law_written_text_is_read_back(
    text: Seq<char>,
    before: Seq<u8>,
    after: Seq<u8>,
    before_len: usize,
    len: usize,
)
    requires
        writes(encode_utf8(text), before, after, before_len, len, true),
    ensures
        len <= after.len(),
        valid_utf8(after.take(len as int)),
        decode_utf8(after.take(len as int)) == text,
{
    assert(after.take(len as int) =~= encode_utf8(text));
    encode_utf8_valid_utf8(text);
    encode_utf8_decode_utf8(text);
}

/// What does not fit is not written at all; what fits stands at the front of the
/// buffer, byte for byte, with its length beside it, and whatever stood behind
/// it in the buffer stands there still.
pub proof fn law_all_or_nothing_is_written(
    src: Seq<u8>,
    before: Seq<u8>,
    after: Seq<u8>,
    before_len: usize,
    after_len: usize,
    fits: bool,
    i: int,
)
    requires
        writes(src, before, after, before_len, after_len, fits),
    ensures
        fits <==> src.len() <= before.len(),
        after.len() == before.len(),
        fits ==> after_len == src.len(),
        fits && 0 <= i < src.len() ==> after[i] == src[i],
        fits && src.len() <= i < before.len() ==> after[i] == before[i],
        !fits ==> after == before && after_len == before_len,
{
}

} // verus!
