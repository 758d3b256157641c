//! The scalar decoder: adapts a byte stream into a stream of Unicode scalar
//! values.
//!
//! A byte that encodes a complete single-byte (ASCII) scalar is emitted
//! immediately. Any other byte is buffered; once the buffer holds at least
//! three bytes (the minimum width at which a complete three-byte encoding
//! can appear) a decode of the whole buffer is attempted after every
//! appended byte, so that two adjacent multi-byte scalars are never merged
//! into one lookahead window. A buffer that is still undecodable when an
//! ASCII byte or the end of the input arrives is dropped: the tail yields
//! nothing.
//!
//! The spec-level model is `decoder_step`: the scalar emitted for the bytes
//! at the cursor, and how many bytes the step consumes.

use vstd::prelude::*;
use vstd::utf8::decode_first_scalar;
use vstd::utf8::is_scalar;
use vstd::utf8::length_of_first_scalar;
use vstd::utf8::pop_first_scalar;
use vstd::utf8::valid_first_scalar;
use vstd::utf8::valid_utf8;

verus! {

/// Relies on char::from_u32: every Unicode scalar value, and only those,
/// converts to the character with that numeric value.
#[verifier::external_body]
fn char_from_u32(v: u32) -> (r: char)
    requires
        is_scalar(v),
    ensures
        r as u32 == v,
{
    match char::from_u32(v) {
        Some(c) => c,
        None => ' ',
    }
}

/// True of a byte that is a complete single-byte scalar on its own.
pub open spec fn is_ascii_byte(b: u8) -> bool {
    b < 0x80
}

/// What attempting to decode a whole buffered run yields: the first scalar
/// of the run if the run is non-empty and entirely well-formed, and nothing
/// otherwise.
pub open spec fn buffer_first_char(s: Seq<u8>) -> Option<char> {
    if s.len() > 0 && valid_utf8(s) {
        Some(decode_first_scalar(s) as char)
    } else {
        None
    }
}

/// The buffering loop of one decoder step, on the bytes `s` that remain,
/// with `s.take(j)` already buffered: if the next byte is ASCII the buffer
/// is decoded and that byte is consumed and lost with it; otherwise the byte
/// joins the buffer, and once the buffer holds at least three bytes each
/// extension is followed by a decode attempt. The result pairs the emitted
/// scalar, if any, with the total number of bytes consumed.
pub open spec fn drain(s: Seq<u8>, j: int) -> (Option<char>, int)
    decreases s.len() - j,
{
    if j < 0 || j >= s.len() {
        (None::<char>, s.len() as int)
    } else if is_ascii_byte(s[j]) {
        (buffer_first_char(s.take(j)), j + 1)
    } else if j + 1 >= 3 && valid_utf8(s.take(j + 1)) {
        (buffer_first_char(s.take(j + 1)), j + 1)
    } else {
        drain(s, j + 1)
    }
}

/// One step of the decoder on the remaining bytes: nothing at the end of
/// the input, an ASCII byte immediately, and otherwise the buffering loop.
pub open spec fn decoder_step(s: Seq<u8>) -> (Option<char>, int) {
    if s.len() == 0 {
        (None::<char>, 0)
    } else if is_ascii_byte(s[0]) {
        (Some((s[0] as u32) as char), 1)
    } else {
        drain(s, 0)
    }
}

pub proof fn lemma_drain_bounds(s: Seq<u8>, j: int)
    requires
        0 <= j <= s.len(),
    ensures
        j <= drain(s, j).1 <= s.len(),
        j < s.len() ==> drain(s, j).1 >= j + 1,
    decreases s.len() - j,
{
    if 0 <= j < s.len() && !is_ascii_byte(s[j]) && !(j + 1 >= 3 && valid_utf8(s.take(j + 1))) {
        lemma_drain_bounds(s, j + 1);
    }
}

/// A decoder step never consumes more bytes than remain, and consumes at
/// least one whenever any remain.
pub proof fn lemma_decoder_step_bounds(s: Seq<u8>)
    ensures
        0 <= decoder_step(s).1 <= s.len(),
        s.len() > 0 ==> decoder_step(s).1 >= 1,
{
    if s.len() > 0 && !is_ascii_byte(s[0]) {
        lemma_drain_bounds(s, 0);
    }
}

/// All the scalars the decoder emits for `s`: the stream ends at the first
/// step that emits nothing, exactly as the streaming decoder reports the
/// end.
pub open spec fn stream_chars(s: Seq<u8>) -> Seq<char>
    decreases s.len(),
    via stream_chars_decreases
{
    match decoder_step(s) {
        (Some(c), n) => seq![c] + stream_chars(s.skip(n)),
        (None, n) => Seq::<char>::empty(),
    }
}

#[via_fn]
proof fn stream_chars_decreases(s: Seq<u8>) {
    lemma_decoder_step_bounds(s);
}

proof fn lemma_width_3_bytes_not_ascii(v: u32)
    ensures
        vstd::utf8::leading_byte_width_3(v) >= 0x80,
        vstd::utf8::second_last_continuation_byte(v) >= 0x80,
        vstd::utf8::last_continuation_byte(v) >= 0x80,
{
    assert((0xE0u8 | (((v >> 12u32) & 0x0F) as u8)) >= 0x80) by (bit_vector);
    assert((0x80u8 | (((v >> 6u32) & 0x3F) as u8)) >= 0x80) by (bit_vector);
    assert((0x80u8 | ((v & 0x3F) as u8)) >= 0x80) by (bit_vector);
}

/// Decoder correctness for wide scalars: a run of scalars whose encodings
/// are all three bytes wide is reproduced exactly — none merged with its
/// neighbour and none lost — even though the encoded forms are adjacent
/// with no separating ASCII byte. The width restriction is the decoder's
/// own: its buffer is first decoded once it holds three bytes, so a
/// narrower multi-byte scalar at the end of the input is dropped with the
/// undecoded tail, as `drain` spells out.
pub proof fn lemma_wide_scalars_round_trip(cs: Seq<char>)
    requires
        forall|i: int| 0 <= i < cs.len() ==> 0x800 <= (#[trigger] cs[i]) as u32 <= 0xffff,
    ensures
        stream_chars(vstd::utf8::encode_utf8(cs)) == cs,
    decreases cs.len(),
{
    let s = vstd::utf8::encode_utf8(cs);
    if cs.len() == 0 {
        assert(stream_chars(s) =~= Seq::<char>::empty());
        assert(cs =~= Seq::<char>::empty());
    } else {
        let v = cs[0] as u32;
        vstd::utf8::char_is_scalar(cs[0]);
        assert(vstd::utf8::has_width_3_encoding(v));
        let enc0 = vstd::utf8::encode_scalar(v);
        assert(enc0.len() == 3);
        assert(s == enc0 + vstd::utf8::encode_utf8(cs.drop_first()));
        assert(s.len() >= 3);
        lemma_width_3_bytes_not_ascii(v);
        assert(!is_ascii_byte(s[0]) && !is_ascii_byte(s[1]) && !is_ascii_byte(s[2]));
        // the whole three-byte encoding is in the buffer at the first
        // decode attempt, and that attempt succeeds
        let single = seq![cs[0]];
        assert(vstd::utf8::encode_utf8(single.drop_first()) =~= Seq::<u8>::empty());
        assert(vstd::utf8::encode_utf8(single) =~= enc0);
        assert(s.take(3) =~= enc0);
        vstd::utf8::encode_utf8_valid_utf8(single);
        vstd::utf8::encode_utf8_first_scalar(single);
        assert(valid_utf8(s.take(3)));
        assert(decode_first_scalar(s.take(3)) == v);
        vstd::utf8::char_u32_cast(cs[0], v);
        assert(buffer_first_char(s.take(3)) == Some(cs[0]));
        assert(drain(s, 2) == (Some(cs[0]), 3int));
        assert(drain(s, 1) == drain(s, 2));
        assert(drain(s, 0) == drain(s, 1));
        assert(decoder_step(s) == (Some(cs[0]), 3int));
        // the rest of the stream is the rest of the run
        assert(s.skip(3) =~= vstd::utf8::encode_utf8(cs.drop_first()));
        assert forall|i: int|
            0 <= i < cs.drop_first().len() implies 0x800 <= (#[trigger] cs.drop_first()[i]) as u32
            <= 0xffff by {
            assert(cs.drop_first()[i] == cs[i + 1]);
        }
        lemma_wide_scalars_round_trip(cs.drop_first());
        assert(stream_chars(s) == seq![cs[0]] + cs.drop_first());
        assert(seq![cs[0]] + cs.drop_first() =~= cs);
    }
}

/// Decodes the single scalar whose encoding starts the byte range
/// `[k, end)`, if the range starts with a well-formed encoding: the scalar's
/// value and the width of its encoding.
fn scalar_at(v: &Vec<u8>, k: usize, end: usize) -> (r: Option<(u32, usize)>)
    requires
        k < end <= v@.len(),
    ensures
        ({
            let t = v@.subrange(k as int, end as int);
            match r {
                Some(p) => {
                    &&& valid_first_scalar(t)
                    &&& p.0 == decode_first_scalar(t)
                    &&& p.1 == length_of_first_scalar(t)
                    &&& is_scalar(p.0)
                    &&& 1 <= p.1 <= end - k
                },
                None => !valid_first_scalar(t),
            }
        }),
{
    let ghost t = v@.subrange(k as int, end as int);
    let b0 = v[k];
    if b0 <= 0x7f {
        proof {
            assert((b0 & 0x7f) == b0) by (bit_vector)
                requires
                    b0 <= 0x7f,
            ;
        }
        Some(((b0 & 0x7f) as u32, 1))
    } else if 0xc0 <= b0 && b0 <= 0xdf {
        if end - k < 2 {
            return None;
        }
        let b1 = v[k + 1];
        if !(0x80 <= b1 && b1 <= 0xbf) {
            return None;
        }
        let val: u32 = (((b1 & 0x3f) as u32)) | (((b0 & 0x1f) as u32) << 6u32);
        proof {
            assert(val == (((b0 & 0x1f) as u32) << 6u32) | ((b1 & 0x3f) as u32)) by (bit_vector)
                requires
                    val == (((b1 & 0x3f) as u32)) | (((b0 & 0x1f) as u32) << 6u32),
            ;
            assert((((b0 & 0x1f) as u32) << 6u32) | ((b1 & 0x3f) as u32) <= 0x7ff) by (bit_vector);
        }
        if val < 0x80 {
            // overlong two-byte encoding
            return None;
        }
        Some((val, 2))
    } else if 0xe0 <= b0 && b0 <= 0xef {
        if end - k < 3 {
            return None;
        }
        let b1 = v[k + 1];
        let b2 = v[k + 2];
        if !(0x80 <= b1 && b1 <= 0xbf) || !(0x80 <= b2 && b2 <= 0xbf) {
            return None;
        }
        let val: u32 = (((b0 & 0x0f) as u32) << 12u32) | (((b1 & 0x3f) as u32) << 6u32) | ((b2
            & 0x3f) as u32);
        proof {
            assert((((b0 & 0x0f) as u32) << 12u32) | (((b1 & 0x3f) as u32) << 6u32) | ((b2
                & 0x3f) as u32) <= 0xffff) by (bit_vector);
        }
        if val < 0x800 {
            // overlong three-byte encoding
            return None;
        }
        if 0xd800 <= val && val <= 0xdfff {
            // surrogate range
            return None;
        }
        Some((val, 3))
    } else if 0xf0 <= b0 && b0 <= 0xf7 {
        if end - k < 4 {
            return None;
        }
        let b1 = v[k + 1];
        let b2 = v[k + 2];
        let b3 = v[k + 3];
        if !(0x80 <= b1 && b1 <= 0xbf) || !(0x80 <= b2 && b2 <= 0xbf) || !(0x80 <= b3 && b3
            <= 0xbf) {
            return None;
        }
        let val: u32 = (((b0 & 0x07) as u32) << 18u32) | (((b1 & 0x3f) as u32) << 12u32) | (((b2
            & 0x3f) as u32) << 6u32) | ((b3 & 0x3f) as u32);
        if val < 0x10000 || val > 0x10ffff {
            // overlong encoding, or a value past the last scalar
            return None;
        }
        Some((val, 4))
    } else {
        // a bare continuation byte, or a byte no encoding uses
        None
    }
}

/// The streaming decoder: the bytes of the input and a cursor over them.
pub struct BytesToChar {
    pub bytes: Vec<u8>,
    pub pos: usize,
}

impl BytesToChar {
    pub open spec fn wf(&self) -> bool {
        self.pos <= self.bytes@.len()
    }

    /// The bytes not yet consumed.
    pub open spec fn remaining(&self) -> Seq<u8> {
        self.bytes@.skip(self.pos as int)
    }

    pub fn new(bytes: Vec<u8>) -> (r: BytesToChar)
        ensures
            r.wf(),
            r.bytes@ == bytes@,
            r.pos == 0,
    {
        BytesToChar { bytes, pos: 0 }
    }

    /// Emits the next scalar value, or nothing at the end of the input or
    /// on an undecodable tail, exactly as `decoder_step` describes.
    pub fn next(&mut self) -> (r: Option<char>)
        requires
            old(self).wf(),
        ensures
            final(self).wf(),
            final(self).bytes@ == old(self).bytes@,
            ({
                let (c, n) = decoder_step(old(self).remaining());
                r == c && final(self).pos as int == old(self).pos + n
            }),
    {
        let ghost s = self.bytes@.skip(self.pos as int);
        if self.pos >= self.bytes.len() {
            return None;
        }
        let b = self.bytes[self.pos];
        if b < 0x80 {
            self.pos = self.pos + 1;
            let c = char_from_u32(b as u32);
            proof {
                vstd::utf8::char_u32_cast(c, b as u32);
            }
            return Some(c);
        }
        let start = self.pos;
        let mut cur = self.pos;
        proof {
            assert(s[0] == self.bytes@[start as int]);
            assert(decoder_step(s) == drain(s, 0));
        }
        loop
            invariant
                self.wf(),
                self.bytes@ == old(self).bytes@,
                self.pos == start,
                start == old(self).pos,
                s == old(self).remaining(),
                start <= cur < self.bytes@.len(),
                self.bytes@.len() <= usize::MAX,
                s == self.bytes@.skip(start as int),
                !is_ascii_byte(self.bytes@[cur as int]),
                drain(s, cur - start) == drain(s, 0),
                decoder_step(s) == drain(s, 0),
            decreases self.bytes@.len() - cur,
        {
            let ghost j = cur - start;
            // the byte at `cur` joins the buffer, which now holds
            // bytes[start .. cur + 1]
            if cur - start >= 2 {
                let decoded = first_char_of(&self.bytes, start, cur + 1);
                proof {
                    assert(s.take(j + 1) =~= self.bytes@.subrange(start as int, cur as int + 1));
                }
                match decoded {
                    Some(c) => {
                        proof {
                            assert(valid_utf8(s.take(j + 1)));
                            assert(drain(s, j) == (Some(c), j + 1));
                        }
                        self.pos = cur + 1;
                        return Some(c);
                    },
                    None => {
                        proof {
                            assert(!valid_utf8(s.take(j + 1)));
                        }
                    },
                }
            }
            // fetch the next byte
            if cur + 1 >= self.bytes.len() {
                // the input ends while the buffer is still undecodable
                proof {
                    assert(j + 1 >= s.len());
                    assert(drain(s, j) == drain(s, j + 1));
                    assert(drain(s, j + 1) == (None::<char>, s.len() as int));
                }
                self.pos = self.bytes.len();
                return None;
            }
            let pc = self.bytes[cur + 1];
            if pc < 0x80 {
                // an ASCII byte ends the buffered run: the buffer is decoded
                // and the ASCII byte is consumed with it
                let r = first_char_of(&self.bytes, start, cur + 1);
                proof {
                    assert(s.take(j + 1) =~= self.bytes@.subrange(start as int, cur as int + 1));
                    assert(drain(s, j) == drain(s, j + 1));
                    assert(drain(s, j + 1) == (buffer_first_char(s.take(j + 1)), j + 2));
                }
                self.pos = cur + 2;
                return r;
            }
            proof {
                assert(drain(s, j) == drain(s, j + 1));
            }
            cur = cur + 1;
        }
    }

    /// Decodes everything that remains, stopping where the stream stops.
    pub fn decode_all(&mut self) -> (r: Vec<char>)
        requires
            old(self).wf(),
        ensures
            final(self).wf(),
            final(self).bytes@ == old(self).bytes@,
            r@ == stream_chars(old(self).remaining()),
    {
        let mut out: Vec<char> = Vec::new();
        loop
            invariant
                self.wf(),
                self.bytes@ == old(self).bytes@,
                out@ + stream_chars(self.remaining()) == stream_chars(old(self).remaining()),
            decreases self.remaining().len(),
        {
            let ghost rem = self.remaining();
            match self.next() {
                Some(c) => {
                    proof {
                        lemma_decoder_step_bounds(rem);
                        assert(self.remaining() =~= rem.skip(decoder_step(rem).1));
                        assert(out@ + seq![c] + stream_chars(self.remaining()) == out@
                            + stream_chars(rem));
                    }
                    out.push(c);
                },
                None => {
                    proof {
                        assert(stream_chars(rem) =~= Seq::<char>::empty());
                        assert(out@ + stream_chars(rem) =~= out@);
                    }
                    return out;
                },
            }
        }
    }
}

/// Decodes the first scalar of the byte range `[start, end)` if the whole
/// range is well-formed, as `buffer_first_char` describes.
fn first_char_of(v: &Vec<u8>, start: usize, end: usize) -> (r: Option<char>)
    requires
        start <= end <= v@.len(),
    ensures
        r == buffer_first_char(v@.subrange(start as int, end as int)),
{
    let ghost t = v@.subrange(start as int, end as int);
    let mut first: Option<char> = None;
    let mut k = start;
    proof {
        assert(v@.subrange(k as int, end as int) =~= t);
    }
    while k < end
        invariant
            start <= k <= end <= v@.len(),
            t == v@.subrange(start as int, end as int),
            valid_utf8(t) <==> valid_utf8(v@.subrange(k as int, end as int)),
            k == start ==> first is None,
            k > start ==> valid_first_scalar(t) && (first matches Some(c) && c as u32
                == decode_first_scalar(t)),
        decreases end - k,
    {
        match scalar_at(v, k, end) {
            None => {
                proof {
                    assert(!valid_utf8(v@.subrange(k as int, end as int)));
                }
                return None;
            },
            Some(p) => {
                let val = p.0;
                let w = p.1;
                if k == start {
                    let c = char_from_u32(val);
                    first = Some(c);
                }
                proof {
                    let tk = v@.subrange(k as int, end as int);
                    assert(pop_first_scalar(tk) =~= v@.subrange(k as int + w as int, end as int));
                    assert(valid_utf8(tk) <==> valid_utf8(pop_first_scalar(tk)));
                }
                k = k + w;
            },
        }
    }
    proof {
        assert(v@.subrange(k as int, end as int).len() == 0);
        assert(valid_utf8(v@.subrange(k as int, end as int)));
        if start < end {
            let c = first->Some_0;
            vstd::utf8::char_u32_cast(c, decode_first_scalar(t));
        }
    }
    first
}

} // verus!
