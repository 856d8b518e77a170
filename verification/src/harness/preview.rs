//! What is safe to show in the Harness reading pane.
//!
//! A skill or command can be text, a multi-megabyte reference, or a binary
//! someone dropped into a vendor directory. The pane must never dump the
//! last two into the terminal, so this is the one place that decides what a
//! preview is.

use vstd::prelude::*;
use vstd::utf8::{decode_utf8, encode_scalar, encode_utf8, valid_utf8};

use crate::text::{chars_of, string_of};

verus! {

/// The most bytes the pane will show. Past this the head is shown with an
/// explicit notice; the asset on disk is untouched.
pub const MAX_PREVIEW_BYTES: usize = 65536;

#[derive(Debug)]
pub enum Preview {
    /// UTF-8 text. `truncated` says the body is only the head of
    /// `total_bytes`.
    Text { body: String, total_bytes: usize, truncated: bool },
    /// Zero bytes at the path.
    Empty,
    /// The path holds nothing.
    Missing,
    /// Bytes unsafe to print: a NUL byte or invalid UTF-8.
    Binary { bytes: usize },
    /// A read failed for a reason other than absence.
    Error(String),
}

/// How many bytes `c` takes in UTF-8.
pub open spec fn utf8_width(c: char) -> nat {
    encode_scalar(c as u32).len()
}

/// The longest head of `chars` whose UTF-8 encoding fits in `max` bytes:
/// a cut that never falls inside a character.
pub open spec fn head_within(chars: Seq<char>, max: int) -> Seq<char>
    decreases chars.len(),
{
    if chars.len() == 0 || utf8_width(chars[0]) > max {
        Seq::empty()
    } else {
        seq![chars[0]] + head_within(chars.drop_first(), max - utf8_width(chars[0]))
    }
}

/// `std::str::from_utf8`: the text the bytes encode, when they are valid
/// UTF-8, and nothing otherwise.
#[verifier::external_body]
fn utf8_text(bytes: &[u8]) -> (r: Option<&str>)
    ensures
        r is Some <==> valid_utf8(bytes@),
        r is Some ==> r->0@ == decode_utf8(bytes@),
{
    std::str::from_utf8(bytes).ok()
}

fn width_exec(c: char) -> (w: usize)
    ensures
        w == utf8_width(c),
        1 <= w <= 4,
{
    proof {
        vstd::utf8::char_is_scalar(c);
    }
    let v = c as u32;
    if v <= 0x7F {
        1
    } else if v <= 0x7FF {
        2
    } else if v <= 0xFFFF {
        3
    } else {
        4
    }
}

/// The head of `chars` fits in `max` bytes.
pub proof fn lemma_head_fits(chars: Seq<char>, max: int)
    requires
        max >= 0,
    ensures
        encode_utf8(head_within(chars, max)).len() <= max,
        head_within(chars, max).len() <= chars.len(),
    decreases chars.len(),
{
    if chars.len() == 0 || utf8_width(chars[0]) > max {
        assert(encode_utf8(Seq::<char>::empty()).len() == 0);
    } else {
        let rest = head_within(chars.drop_first(), max - utf8_width(chars[0]));
        lemma_head_fits(chars.drop_first(), max - utf8_width(chars[0]));
        let h = seq![chars[0]] + rest;
        assert(h[0] == chars[0]);
        assert(h.drop_first() == rest);
    }
}

fn head_exec(chars: &Vec<char>, max: usize) -> (r: Vec<char>)
    ensures
        r@ == head_within(chars@, max as int),
{
    let mut used: usize = 0;
    let mut i: usize = 0;
    let mut out: Vec<char> = Vec::new();
    assert(chars@.skip(0) == chars@);
    assert(chars@.take(0) + head_within(chars@, max as int) == head_within(chars@, max as int));
    while i < chars.len()
        invariant
            i <= chars@.len(),
            used <= max,
            out@ == chars@.take(i as int),
            head_within(chars@, max as int) == chars@.take(i as int) + head_within(
                chars@.skip(i as int),
                max - used,
            ),
        decreases chars.len() - i,
    {
        let w = width_exec(chars[i]);
        let ghost tail = chars@.skip(i as int);
        assert(tail[0] == chars@[i as int]);
        assert(tail.drop_first() == chars@.skip(i + 1));
        if w > max - used {
            assert(head_within(tail, max - used) == Seq::<char>::empty());
            assert(chars@.take(i as int) + Seq::<char>::empty() == chars@.take(i as int));
            return out;
        }
        out.push(chars[i]);
        used = used + w;
        assert(chars@.take(i + 1) == chars@.take(i as int) + seq![chars@[i as int]]);
        i = i + 1;
    }
    assert(chars@.skip(i as int) == Seq::<char>::empty());
    assert(chars@.take(i as int) == chars@);
    out
}

/// What [`Preview::classify`] makes of `bytes`: nothing for no bytes, a
/// count for anything holding a NUL byte or not UTF-8, else the text, cut at
/// a character boundary past [`MAX_PREVIEW_BYTES`].
pub open spec fn classified(bytes: Seq<u8>, r: Preview) -> bool {
    &&& bytes.len() == 0 ==> r is Empty
    &&& bytes.len() > 0 && (bytes.contains(0u8) || !valid_utf8(bytes)) ==> r
        == (Preview::Binary { bytes: bytes.len() as usize })
    &&& bytes.len() > 0 && !bytes.contains(0u8) && valid_utf8(bytes) ==> (r matches Preview::Text {
        body,
        total_bytes,
        truncated,
    } && total_bytes == bytes.len() && truncated == (bytes.len() > MAX_PREVIEW_BYTES)
        && body@ == (if truncated {
        head_within(decode_utf8(bytes), MAX_PREVIEW_BYTES as int)
    } else {
        decode_utf8(bytes)
    }))
}

impl Preview {
    /// What the pane may show of `bytes`: nothing for no bytes, a count for
    /// anything holding a NUL byte or not UTF-8, else the text, cut at a
    /// character boundary past [`MAX_PREVIEW_BYTES`].
    pub fn classify(bytes: &[u8]) -> (r: Preview)
        ensures
            classified(bytes@, r),
    {
        if bytes.len() == 0 {
            return Preview::Empty;
        }
        let mut k: usize = 0;
        while k < bytes.len()
            invariant
                k <= bytes@.len(),
                forall|j: int| 0 <= j < k ==> bytes@[j] != 0u8,
            decreases bytes.len() - k,
        {
            if bytes[k] == 0u8 {
                assert(bytes@.contains(0u8));
                return Preview::Binary { bytes: bytes.len() };
            }
            k = k + 1;
        }
        assert(!bytes@.contains(0u8));
        let text = match utf8_text(bytes) {
            Some(t) => t,
            None => {
                return Preview::Binary { bytes: bytes.len() };
            },
        };
        let chars = chars_of(text);
        if bytes.len() > MAX_PREVIEW_BYTES {
            let head = head_exec(&chars, MAX_PREVIEW_BYTES);
            Preview::Text { body: string_of(&head), total_bytes: bytes.len(), truncated: true }
        } else {
            Preview::Text { body: text.to_owned(), total_bytes: bytes.len(), truncated: false }
        }
    }

    /// The preview of a read's outcome: the classified bytes, or the error
    /// the read failed with. (A missing file is [`Preview::Missing`], which
    /// the caller tells apart before reading.)
    pub fn from_bytes(bytes: Result<Vec<u8>, String>) -> (r: Preview)
        ensures
            match bytes {
                Ok(b) => classified(b@, r),
                Err(e) => r matches Preview::Error(m) && m@ == e@,
            },
    {
        match bytes {
            Ok(b) => Preview::classify(b.as_slice()),
            Err(e) => Preview::Error(e),
        }
    }
}

} // verus!
