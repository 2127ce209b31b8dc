//! Bytes on the wire: slices, big-endian numbers, text, and streams of bytes with replies.

use vstd::prelude::*;
use vstd::utf8::{decode_utf8, valid_utf8};

use crate::error::{eof, eof_failure, failure, fault, CoreError, ErrorKind, ErrorModel};

verus! {

/// `String::from_utf8`: gives a string exactly where the bytes are valid UTF-8, and then
/// the string of the characters that they encode.
#[verifier::external_body]
fn string_from_utf8(bytes: Vec<u8>) -> (r: Option<String>)
    ensures
        r is Some == valid_utf8(bytes@),
        r is Some ==> r->0@ == decode_utf8(bytes@),
{
    String::from_utf8(bytes).ok()
}

/// The text that bytes encode, or an error with the given message.
pub open spec fn text_or(bytes: Seq<u8>, message: Seq<char>) -> Result<Seq<char>, ErrorModel> {
    if valid_utf8(bytes) {
        Ok(decode_utf8(bytes))
    } else {
        Err(fault(ErrorKind::InvalidData, message))
    }
}

/// The text that bytes encode.
pub open spec fn text_of(bytes: Seq<u8>) -> Result<Seq<char>, ErrorModel> {
    text_or(bytes, "invalid utf-8"@)
}

/// The view of a result whose value is text.
pub open spec fn text_result(r: Result<String, CoreError>) -> Result<Seq<char>, ErrorModel> {
    match r {
        Ok(s) => Ok(s@),
        Err(e) => Err(e@),
    }
}

/// The text that bytes encode, or an error with the given message.
pub fn decode_or(bytes: Vec<u8>, message: &str) -> (r: Result<String, CoreError>)
    ensures
        text_result(r) == text_or(bytes@, message@),
{
    match string_from_utf8(bytes) {
        Some(s) => Ok(s),
        None => Err(failure(ErrorKind::InvalidData, message)),
    }
}

/// The text that bytes encode.
pub fn decode_text(bytes: Vec<u8>) -> (r: Result<String, CoreError>)
    ensures
        text_result(r) == text_of(bytes@),
{
    decode_or(bytes, "invalid utf-8")
}

/// A big-endian number of two bytes.
pub open spec fn be16(high: u8, low: u8) -> u16 {
    (high as u16 * 256 + low as u16) as u16
}

/// The two bytes of a number, the more significant first.
pub open spec fn be16_bytes(n: u16) -> Seq<u8> {
    seq![(n / 256) as u8, (n % 256) as u8]
}

/// A number reads back from its two bytes.
pub proof fn lemma_be16(n: u16)
    ensures
        be16(be16_bytes(n)[0], be16_bytes(n)[1]) == n,
{
}

/// A big-endian number of two bytes.
pub fn join_be16(high: u8, low: u8) -> (r: u16)
    ensures
        r == be16(high, low),
{
    high as u16 * 256 + low as u16
}

/// Appends the two bytes of a number.
pub fn push_be16(out: &mut Vec<u8>, n: u16)
    ensures
        final(out)@ == old(out)@ + be16_bytes(n),
{
    let ghost before = out@;
    out.push((n / 256) as u8);
    out.push((n % 256) as u8);
    assert(out@ =~= before + be16_bytes(n));
}

/// Appends bytes.
pub fn push_bytes(out: &mut Vec<u8>, bytes: &[u8])
    ensures
        final(out)@ == old(out)@ + bytes@,
{
    let ghost before = out@;
    let mut i: usize = 0;
    assert(before + bytes@.subrange(0, 0) =~= before);
    while i < bytes.len()
        invariant
            i <= bytes@.len(),
            out@ == before + bytes@.subrange(0, i as int),
        decreases bytes.len() - i,
    {
        out.push(bytes[i]);
        i += 1;
        assert(out@ =~= before + bytes@.subrange(0, i as int));
    }
    assert(bytes@.subrange(0, bytes@.len() as int) =~= bytes@);
}

/// A copy of the bytes from `from` to `to`.
pub fn copy_bytes(bytes: &[u8], from: usize, to: usize) -> (r: Vec<u8>)
    requires
        from <= to <= bytes@.len(),
    ensures
        r@ == bytes@.subrange(from as int, to as int),
{
    let mut out: Vec<u8> = Vec::new();
    let mut i: usize = from;
    while i < to
        invariant
            from <= i <= to <= bytes@.len(),
            out@ == bytes@.subrange(from as int, i as int),
        decreases to - i,
    {
        out.push(bytes[i]);
        i += 1;
        assert(out@ =~= bytes@.subrange(from as int, i as int));
    }
    out
}

/// Whether bytes are the same.
pub fn same_bytes(a: &[u8], b: &[u8]) -> (r: bool)
    ensures
        r == (a@ == b@),
{
    if a.len() != b.len() {
        return false;
    }
    let mut i: usize = 0;
    while i < a.len()
        invariant
            i <= a@.len(),
            a@.len() == b@.len(),
            forall|k: int| 0 <= k < i ==> a@[k] == b@[k],
        decreases a.len() - i,
    {
        if a[i] != b[i] {
            return false;
        }
        i += 1;
    }
    assert(a@ =~= b@);
    true
}

/// The four bytes from `from` on.
pub fn four_bytes(bytes: &[u8], from: usize) -> (r: [u8; 4])
    requires
        from + 4 <= bytes@.len(),
    ensures
        r@ == bytes@.subrange(from as int, from + 4),
{
    let r = [bytes[from], bytes[from + 1], bytes[from + 2], bytes[from + 3]];
    assert(r@ =~= bytes@.subrange(from as int, from + 4));
    r
}

/// The sixteen bytes from `from` on.
pub fn sixteen_bytes(bytes: &[u8], from: usize) -> (r: [u8; 16])
    requires
        from + 16 <= bytes@.len(),
    ensures
        r@ == bytes@.subrange(from as int, from + 16),
{
    let mut r: [u8; 16] = [0u8; 16];
    let mut i: usize = 0;
    while i < 16
        invariant
            i <= 16,
            from + 16 <= bytes.len(),
            forall|k: int| 0 <= k < i ==> #[trigger] r@[k] == bytes@[from + k],
        decreases 16 - i,
    {
        r[i] = bytes[from + i];
        i += 1;
    }
    assert(r@ =~= bytes@.subrange(from as int, from + 16));
    r
}

/// A stream of bytes: what has arrived, how much of it was read, and what was sent in reply.
#[derive(Debug, PartialEq, Eq)]
pub struct Exchange {
    pub input: Vec<u8>,
    pub position: usize,
    pub output: Vec<u8>,
}

/// The mathematical value of a stream.
#[verifier::ext_equal]
pub struct Tape {
    pub input: Seq<u8>,
    pub position: nat,
    pub output: Seq<u8>,
}

impl View for Exchange {
    type V = Tape;

    open spec fn view(&self) -> Tape {
        Tape { input: self.input@, position: self.position as nat, output: self.output@ }
    }
}

impl Tape {
    /// Not more was read than has arrived.
    pub open spec fn wf(self) -> bool {
        self.position <= self.input.len()
    }

    /// Whether another `n` bytes have arrived.
    pub open spec fn offers(self, n: nat) -> bool {
        self.position + n <= self.input.len()
    }

    /// The next `n` bytes.
    pub open spec fn next(self, n: nat) -> Seq<u8> {
        self.input.subrange(self.position as int, (self.position + n) as int)
    }

    /// The stream after reading `n` bytes.
    pub open spec fn skip(self, n: nat) -> Tape {
        Tape { position: self.position + n, ..self }
    }

    /// The stream after sending bytes.
    pub open spec fn send(self, bytes: Seq<u8>) -> Tape {
        Tape { output: self.output + bytes, ..self }
    }

    /// The bytes that arrived and were not read yet.
    pub open spec fn rest(self) -> Seq<u8> {
        self.input.subrange(self.position as int, self.input.len() as int)
    }
}

/// A stream on which exactly these bytes have arrived.
pub open spec fn arrived(bytes: Seq<u8>) -> Tape {
    Tape { input: bytes, position: 0, output: Seq::empty() }
}

impl Exchange {
    /// Not more was read than has arrived.
    pub open spec fn wf(&self) -> bool {
        self@.wf()
    }

    /// A stream on which the given bytes have arrived.
    pub fn new(input: Vec<u8>) -> (r: Exchange)
        ensures
            r.wf(),
            r@ == (Tape { input: input@, position: 0, output: Seq::empty() }),
    {
        Exchange { input, position: 0, output: Vec::new() }
    }

    /// Reads `n` bytes; where fewer are left, nothing is read.
    pub fn take(&mut self, n: usize) -> (r: Result<Vec<u8>, CoreError>)
        requires
            old(self).wf(),
        ensures
            final(self).wf(),
            match r {
                Ok(bytes) => {
                    &&& old(self)@.offers(n as nat)
                    &&& bytes@ == old(self)@.next(n as nat)
                    &&& final(self)@ == old(self)@.skip(n as nat)
                },
                Err(e) => {
                    &&& !old(self)@.offers(n as nat)
                    &&& e@ == eof()
                    &&& final(self)@ == old(self)@
                },
            },
    {
        if n > self.input.len() - self.position {
            return Err(eof_failure());
        }
        let bytes = copy_bytes(self.input.as_slice(), self.position, self.position + n);
        self.position = self.position + n;
        Ok(bytes)
    }

    /// Sends bytes.
    pub fn send(&mut self, bytes: &[u8])
        requires
            old(self).wf(),
        ensures
            final(self).wf(),
            final(self)@ == old(self)@.send(bytes@),
    {
        push_bytes(&mut self.output, bytes);
    }
}

/// Reading a text of `n` bytes.
pub open spec fn read_text(t: Tape, n: nat) -> (Result<Seq<char>, ErrorModel>, Tape) {
    if t.offers(n) {
        (text_of(t.next(n)), t.skip(n))
    } else {
        (Err(eof()), t)
    }
}

impl Exchange {
    /// Reads a text of `n` bytes.
    pub fn take_text(&mut self, n: usize) -> (r: Result<String, CoreError>)
        requires
            old(self).wf(),
        ensures
            final(self).wf(),
            (text_result(r), final(self)@) == read_text(old(self)@, n as nat),
    {
        match self.take(n) {
            Ok(bytes) => decode_text(bytes),
            Err(e) => Err(e),
        }
    }
}

/// A stream on which more bytes have arrived.
pub open spec fn extended(t: Tape, more: Seq<u8>) -> Tape {
    Tape { input: t.input + more, ..t }
}

/// What a stream offers stays the same when more bytes arrive.
pub proof fn lemma_extended(t: Tape, more: Seq<u8>)
    requires
        t.wf(),
    ensures
        extended(t, more).wf(),
        forall|n: nat| #[trigger] t.offers(n) ==> extended(t, more).offers(n) && extended(t, more).next(
            n,
        ) == t.next(n) && extended(t.skip(n), more) == extended(t, more).skip(n),
        forall|bytes: Seq<u8>|
            extended(#[trigger] t.send(bytes), more) == extended(t, more).send(bytes),
{
    assert forall|n: nat| #[trigger] t.offers(n) implies extended(t, more).offers(n) && extended(
        t,
        more,
    ).next(n) == t.next(n) && extended(t.skip(n), more) == extended(t, more).skip(n) by {
        assert(extended(t, more).next(n) =~= t.next(n));
    }
}

} // verus!
