//! Shadowsocks: ciphers, the chunk stream, requests over TCP and UDP.

use vstd::prelude::*;

use crate::address::SocketModel;
use crate::crypto::{
    aes128_gcm_open, aes128_gcm_opened, aes128_gcm_seal, aes128_gcm_sealed, aes256_gcm_open,
    aes256_gcm_opened, aes256_gcm_seal, aes256_gcm_sealed, chacha20_poly1305_open,
    chacha20_poly1305_opened, chacha20_poly1305_seal, chacha20_poly1305_sealed, hkdf_sha1,
    hkdf_sha1_key, md5_digest, md5_sum, random_bytes, AES_GCM_LIMIT, CHACHA20_LIMIT, TAG_LEN,
};
use crate::error::{eof, failure, fault, CoreError, ErrorKind, ErrorModel};
use crate::target::{address_bytes, read_target, take_target, SocksTarget, TargetModel};
use crate::text::{lower, lowered, replace, replaced, same_text, trim, trimmed};
use crate::wire::{
    arrived, be16, be16_bytes, copy_bytes, extended, join_be16, lemma_be16, lemma_extended,
    push_be16, push_bytes, Exchange, Tape,
};

verus! {

/// The longest payload of a chunk.
pub const MAX_CHUNK_LEN: usize = 0x3fff;

/// The ciphers.
#[derive(Clone, Copy, Debug, PartialEq, Eq, Structural)]
pub enum ShadowsocksMethod {
    Aes128Gcm,
    Aes256Gcm,
    ChaCha20IetfPoly1305,
}

/// The name of a cipher without white space around it, in lower case, with dashes.
pub open spec fn normalized_method(method: Seq<char>) -> Seq<char> {
    replace(lower(trim(method)), '_', '-')
}

/// The cipher of a name.
pub open spec fn method_of(method: Seq<char>) -> Result<ShadowsocksMethod, ErrorModel> {
    let name = normalized_method(method);
    if name == "aes-128-gcm"@ {
        Ok(ShadowsocksMethod::Aes128Gcm)
    } else if name == "aes-256-gcm"@ {
        Ok(ShadowsocksMethod::Aes256Gcm)
    } else if name == "chacha20-ietf-poly1305"@ {
        Ok(ShadowsocksMethod::ChaCha20IetfPoly1305)
    } else {
        Err(
            fault(
                ErrorKind::Unsupported,
                "shadowsocks cipher "@ + name + " is not supported"@,
            ),
        )
    }
}

/// The name of a cipher without white space around it, in lower case, with dashes.
pub fn normalize_method(method: &str) -> (r: String)
    ensures
        r@ == normalized_method(method@),
{
    let clean = trimmed(method);
    let low = lowered(clean.as_str());
    replaced(low.as_str(), '_', '-')
}

impl ShadowsocksMethod {
    /// The length of a key.
    pub open spec fn key_size(self) -> nat {
        match self {
            ShadowsocksMethod::Aes128Gcm => 16,
            ShadowsocksMethod::Aes256Gcm => 32,
            ShadowsocksMethod::ChaCha20IetfPoly1305 => 32,
        }
    }

    /// The longest message that the cipher seals.
    pub open spec fn limit(self) -> nat {
        match self {
            ShadowsocksMethod::Aes128Gcm => AES_GCM_LIMIT as nat,
            ShadowsocksMethod::Aes256Gcm => AES_GCM_LIMIT as nat,
            ShadowsocksMethod::ChaCha20IetfPoly1305 => CHACHA20_LIMIT as nat,
        }
    }

    /// A message sealed under a key and a nonce.
    pub open spec fn sealed(self, key: Seq<u8>, nonce: Seq<u8>, message: Seq<u8>) -> Seq<u8> {
        match self {
            ShadowsocksMethod::Aes128Gcm => aes128_gcm_sealed(key, nonce, message),
            ShadowsocksMethod::Aes256Gcm => aes256_gcm_sealed(key, nonce, message),
            ShadowsocksMethod::ChaCha20IetfPoly1305 => chacha20_poly1305_sealed(
                key,
                nonce,
                message,
            ),
        }
    }

    /// The message in sealed bytes, where the tag is right.
    pub open spec fn opened(self, key: Seq<u8>, nonce: Seq<u8>, sealed: Seq<u8>) -> Option<
        Seq<u8>,
    > {
        match self {
            ShadowsocksMethod::Aes128Gcm => aes128_gcm_opened(key, nonce, sealed),
            ShadowsocksMethod::Aes256Gcm => aes256_gcm_opened(key, nonce, sealed),
            ShadowsocksMethod::ChaCha20IetfPoly1305 => if sealed.len() > CHACHA20_LIMIT + TAG_LEN {
                None
            } else {
                chacha20_poly1305_opened(key, nonce, sealed)
            },
        }
    }

    /// The cipher of a name.
    pub fn parse(method: &str) -> (r: Result<ShadowsocksMethod, CoreError>)
        ensures
            (match r {
                Ok(m) => Ok::<ShadowsocksMethod, ErrorModel>(m),
                Err(e) => Err(e@),
            }) == method_of(method@),
    {
        let name = normalize_method(method);
        if same_text(name.as_str(), "aes-128-gcm") {
            Ok(ShadowsocksMethod::Aes128Gcm)
        } else if same_text(name.as_str(), "aes-256-gcm") {
            Ok(ShadowsocksMethod::Aes256Gcm)
        } else if same_text(name.as_str(), "chacha20-ietf-poly1305") {
            Ok(ShadowsocksMethod::ChaCha20IetfPoly1305)
        } else {
            let mut message = "shadowsocks cipher ".to_owned();
            message.append(name.as_str());
            message.append(" is not supported");
            Err(CoreError { kind: ErrorKind::Unsupported, message })
        }
    }

    /// The length of a key.
    pub fn key_len(&self) -> (r: usize)
        ensures
            r == self.key_size(),
    {
        match self {
            ShadowsocksMethod::Aes128Gcm => 16,
            ShadowsocksMethod::Aes256Gcm => 32,
            ShadowsocksMethod::ChaCha20IetfPoly1305 => 32,
        }
    }

    /// The length of a salt, which is that of a key.
    pub fn salt_len(&self) -> (r: usize)
        ensures
            r == self.key_size(),
    {
        self.key_len()
    }

    /// The longest message that the cipher seals.
    fn longest(&self) -> (r: u64)
        ensures
            r == self.limit(),
    {
        match self {
            ShadowsocksMethod::Aes128Gcm => AES_GCM_LIMIT,
            ShadowsocksMethod::Aes256Gcm => AES_GCM_LIMIT,
            ShadowsocksMethod::ChaCha20IetfPoly1305 => CHACHA20_LIMIT,
        }
    }
}

/// Whether the cipher of that name is known.
pub fn is_supported_shadowsocks_cipher(method: &str) -> (r: bool)
    ensures
        r == method_of(method@) is Ok,
{
    ShadowsocksMethod::parse(method).is_ok()
}

/// The digests that a key is made of: each is taken of the one before it and the password.
pub open spec fn key_block(password: Seq<u8>, i: nat) -> Seq<u8>
    decreases i,
{
    if i == 0 {
        md5_digest(password)
    } else {
        md5_digest(key_block(password, (i - 1) as nat) + password)
    }
}

/// The first `n` of these digests, one behind the other.
pub open spec fn key_blocks(password: Seq<u8>, n: nat) -> Seq<u8>
    decreases n,
{
    if n == 0 {
        Seq::empty()
    } else {
        key_blocks(password, (n - 1) as nat) + key_block(password, (n - 1) as nat)
    }
}

/// The key of a password: as many bytes of the digests as are wanted.
pub open spec fn password_key(password: Seq<u8>, len: nat) -> Seq<u8> {
    key_blocks(password, (len + 15) / 16).subrange(0, len as int)
}

/// The key of a password.
pub fn evp_bytes_to_key(password: &[u8], key_len: usize) -> (r: Vec<u8>)
    requires
        key_len <= usize::MAX - 16,
    ensures
        r@ == password_key(password@, key_len as nat),
        r@.len() == key_len,
{
    let mut key: Vec<u8> = Vec::new();
    let mut previous: Vec<u8> = Vec::new();
    let ghost mut n: nat = 0;
    while key.len() < key_len
        invariant
            key_len <= usize::MAX - 16,
            key@ == key_blocks(password@, n),
            key@.len() == 16 * n,
            n == 0 ==> previous@.len() == 0,
            n > 0 ==> previous@ == key_block(password@, (n - 1) as nat),
            n == 0 || 16 * (n - 1) < key_len,
        decreases key_len + 16 - key@.len(),
    {
        let ghost last = previous@;
        push_bytes(&mut previous, password);
        proof {
            if n == 0 {
                assert(previous@ =~= password@);
            }
        }
        previous = md5_sum(previous.as_slice());
        push_bytes(&mut key, previous.as_slice());
        proof {
            n = n + 1;
        }
    }
    key.truncate(key_len);
    proof {
        assert((key_len + 15) / 16 == n);
    }
    key
}

/// The label under which the keys of a session are derived.
pub open spec fn session_label() -> Seq<u8> {
    seq![0x73u8, 0x73u8, 0x2du8, 0x73u8, 0x75u8, 0x62u8, 0x6bu8, 0x65u8, 0x79u8]
}

/// The key of a session, from the password and the salt.
pub open spec fn session_key(
    method: ShadowsocksMethod,
    password: Seq<char>,
    salt: Seq<u8>,
) -> Seq<u8> {
    hkdf_sha1_key(
        salt,
        password_key(vstd::utf8::encode_utf8(password), method.key_size()),
        session_label(),
        method.key_size(),
    )
}

/// A nonce: the counter in eight bytes, the least significant first, and four zero bytes.
pub open spec fn counter_nonce(n: u64) -> Seq<u8> {
    seq![
        (n % 256) as u8,
        (n / 0x100 % 256) as u8,
        (n / 0x1_0000 % 256) as u8,
        (n / 0x100_0000 % 256) as u8,
        (n / 0x1_0000_0000 % 256) as u8,
        (n / 0x100_0000_0000 % 256) as u8,
        (n / 0x1_0000_0000_0000 % 256) as u8,
        (n / 0x100_0000_0000_0000 % 256) as u8,
        0u8,
        0u8,
        0u8,
        0u8,
    ]
}

/// A nonce from a counter.
pub fn nonce_bytes(n: u64) -> (r: [u8; 12])
    ensures
        r@ == counter_nonce(n),
{
    let r = [
        (n % 256) as u8,
        (n / 0x100 % 256) as u8,
        (n / 0x1_0000 % 256) as u8,
        (n / 0x100_0000 % 256) as u8,
        (n / 0x1_0000_0000 % 256) as u8,
        (n / 0x100_0000_0000 % 256) as u8,
        (n / 0x1_0000_0000_0000 % 256) as u8,
        (n / 0x100_0000_0000_0000 % 256) as u8,
        0u8,
        0u8,
        0u8,
        0u8,
    ];
    assert(r@ =~= counter_nonce(n));
    r
}

/// Different counters give different nonces.
pub proof fn law_nonces_are_distinct(a: u64, b: u64)
    requires
        counter_nonce(a) == counter_nonce(b),
    ensures
        a == b,
{
    let x = counter_nonce(a);
    let y = counter_nonce(b);
    assert(x[0] == y[0] && x[1] == y[1] && x[2] == y[2] && x[3] == y[3] && x[4] == y[4] && x[5]
        == y[5] && x[6] == y[6] && x[7] == y[7]);
    assert(a == b) by (bit_vector)
        requires
            a % 256 == b % 256,
            a / 0x100 % 256 == b / 0x100 % 256,
            a / 0x1_0000 % 256 == b / 0x1_0000 % 256,
            a / 0x100_0000 % 256 == b / 0x100_0000 % 256,
            a / 0x1_0000_0000 % 256 == b / 0x1_0000_0000 % 256,
            a / 0x100_0000_0000 % 256 == b / 0x100_0000_0000 % 256,
            a / 0x1_0000_0000_0000 % 256 == b / 0x1_0000_0000_0000 % 256,
            a / 0x100_0000_0000_0000 % 256 == b / 0x100_0000_0000_0000 % 256,
    ;
}

/// The counter after the next message.
pub open spec fn next_counter(n: u64) -> u64 {
    if n == u64::MAX {
        0
    } else {
        (n + 1) as u64
    }
}

/// One direction of a session: its key, and the counter of its messages.
#[derive(Debug)]
pub struct ShadowsocksCipher {
    pub method: ShadowsocksMethod,
    pub key: Vec<u8>,
    pub nonce: u64,
}

/// The mathematical value of a cipher.
#[verifier::ext_equal]
pub struct CipherModel {
    pub method: ShadowsocksMethod,
    pub key: Seq<u8>,
    pub nonce: u64,
}

impl View for ShadowsocksCipher {
    type V = CipherModel;

    open spec fn view(&self) -> CipherModel {
        CipherModel { method: self.method, key: self.key@, nonce: self.nonce }
    }
}

impl CipherModel {
    /// The next message, sealed.
    pub open spec fn seal(self, message: Seq<u8>) -> Seq<u8> {
        self.method.sealed(self.key, counter_nonce(self.nonce), message)
    }

    /// The next message, where the tag is right.
    pub open spec fn open_next(self, sealed: Seq<u8>) -> Option<Seq<u8>> {
        self.method.opened(self.key, counter_nonce(self.nonce), sealed)
    }

    /// The cipher after a message.
    pub open spec fn advanced(self) -> CipherModel {
        CipherModel { nonce: next_counter(self.nonce), ..self }
    }
}

/// The cipher of a session that begins.
pub open spec fn session_cipher(
    method: ShadowsocksMethod,
    password: Seq<char>,
    salt: Seq<u8>,
) -> CipherModel {
    CipherModel { method, key: session_key(method, password, salt), nonce: 0 }
}

/// The error of a message that cannot be opened.
pub open spec fn cannot_open() -> ErrorModel {
    fault(ErrorKind::InvalidData, "decrypt chunk"@)
}

impl ShadowsocksCipher {
    /// The key has the length that the cipher wants.
    pub open spec fn wf(&self) -> bool {
        self.key@.len() == self.method.key_size()
    }

    /// The cipher of a session that begins.
    pub fn new(method: ShadowsocksMethod, password: &str, salt: &[u8]) -> (r: Result<
        ShadowsocksCipher,
        CoreError,
    >)
        ensures
            r is Ok,
            r->Ok_0.wf(),
            r->Ok_0@ == session_cipher(method, password@, salt@),
    {
        let master = evp_bytes_to_key(password.as_bytes(), method.key_len());
        let label: [u8; 9] = [0x73, 0x73, 0x2d, 0x73, 0x75, 0x62, 0x6b, 0x65, 0x79];
        assert(label@ =~= session_label());
        match hkdf_sha1(salt, master.as_slice(), label.as_slice(), method.key_len()) {
            Some(key) => Ok(ShadowsocksCipher { method, key, nonce: 0 }),
            None => Err(failure(ErrorKind::InvalidData, "derive shadowsocks key")),
        }
    }

    /// Seals the next message in place; one that is too long for the cipher is refused.
    pub fn encrypt(&mut self, bytes: &mut Vec<u8>) -> (r: Result<(), CoreError>)
        requires
            old(self).wf(),
        ensures
            final(self).wf(),
            match r {
                Ok(()) => {
                    &&& old(bytes)@.len() <= old(self).method.limit()
                    &&& final(bytes)@ == old(self)@.seal(old(bytes)@)
                    &&& final(bytes)@.len() == old(bytes)@.len() + TAG_LEN
                    &&& final(self)@ == old(self)@.advanced()
                    &&& old(self)@.open_next(final(bytes)@) == Some(old(bytes)@)
                },
                Err(e) => {
                    &&& old(bytes)@.len() > old(self).method.limit()
                    &&& e@ == fault(ErrorKind::InvalidData, "encrypt chunk"@)
                    &&& final(bytes)@ == old(bytes)@
                    &&& final(self)@ == old(self)@
                },
            },
    {
        if bytes.len() as u64 > self.method.longest() {
            return Err(failure(ErrorKind::InvalidData, "encrypt chunk"));
        }
        let nonce = nonce_bytes(self.nonce);
        let sealed = match self.method {
            ShadowsocksMethod::Aes128Gcm => aes128_gcm_seal(
                self.key.as_slice(),
                &nonce,
                bytes.as_slice(),
            ),
            ShadowsocksMethod::Aes256Gcm => aes256_gcm_seal(
                self.key.as_slice(),
                &nonce,
                bytes.as_slice(),
            ),
            ShadowsocksMethod::ChaCha20IetfPoly1305 => chacha20_poly1305_seal(
                self.key.as_slice(),
                &nonce,
                bytes.as_slice(),
            ),
        };
        *bytes = sealed;
        self.nonce = self.nonce.wrapping_add(1);
        Ok(())
    }

    /// Opens the next message in place; where that fails, nothing changes.
    pub fn decrypt(&mut self, bytes: &mut Vec<u8>) -> (r: Result<(), CoreError>)
        requires
            old(self).wf(),
        ensures
            final(self).wf(),
            match r {
                Ok(()) => {
                    &&& old(self)@.open_next(old(bytes)@) == Some(final(bytes)@)
                    &&& final(bytes)@.len() + TAG_LEN == old(bytes)@.len()
                    &&& final(self)@ == old(self)@.advanced()
                },
                Err(e) => {
                    &&& old(self)@.open_next(old(bytes)@) is None
                    &&& e@ == cannot_open()
                    &&& final(bytes)@ == old(bytes)@
                    &&& final(self)@ == old(self)@
                },
            },
    {
        let nonce = nonce_bytes(self.nonce);
        let opened = match self.method {
            ShadowsocksMethod::Aes128Gcm => aes128_gcm_open(
                self.key.as_slice(),
                &nonce,
                bytes.as_slice(),
            ),
            ShadowsocksMethod::Aes256Gcm => aes256_gcm_open(
                self.key.as_slice(),
                &nonce,
                bytes.as_slice(),
            ),
            ShadowsocksMethod::ChaCha20IetfPoly1305 => if bytes.len() > TAG_LEN && (bytes.len()
                - TAG_LEN) as u64 > CHACHA20_LIMIT {
                None
            } else {
                chacha20_poly1305_open(self.key.as_slice(), &nonce, bytes.as_slice())
            },
        };
        match opened {
            Some(message) => {
                *bytes = message;
                self.nonce = self.nonce.wrapping_add(1);
                Ok(())
            },
            None => Err(failure(ErrorKind::InvalidData, "decrypt chunk")),
        }
    }
}

/// The payload length that the opened head of a chunk announces.
pub open spec fn announced_length(head: Seq<u8>) -> Result<nat, ErrorModel> {
    if head.len() != 2 {
        Err(fault(ErrorKind::InvalidData, "invalid shadowsocks chunk length"@))
    } else if be16(head[0], head[1]) == 0 || be16(head[0], head[1]) > MAX_CHUNK_LEN {
        Err(fault(ErrorKind::InvalidData, "invalid shadowsocks chunk size"@))
    } else {
        Ok(be16(head[0], head[1]) as nat)
    }
}

/// The payload length that the opened head of a chunk announces.
pub fn chunk_length(head: &[u8]) -> (r: Result<usize, CoreError>)
    ensures
        (match r {
            Ok(n) => Ok::<nat, ErrorModel>(n as nat),
            Err(e) => Err(e@),
        }) == announced_length(head@),
{
    if head.len() != 2 {
        return Err(failure(ErrorKind::InvalidData, "invalid shadowsocks chunk length"));
    }
    let len: usize = join_be16(head[0], head[1]) as usize;
    if len == 0 || len > MAX_CHUNK_LEN {
        return Err(failure(ErrorKind::InvalidData, "invalid shadowsocks chunk size"));
    }
    Ok(len)
}

/// Reading one chunk: its sealed length, then its sealed payload.
pub open spec fn chunk(c: CipherModel, t: Tape) -> (Result<Seq<u8>, ErrorModel>, CipherModel, Tape) {
    if !t.offers(18) {
        (Err(eof()), c, t)
    } else {
        let t1 = t.skip(18);
        match c.open_next(t.next(18)) {
            None => (Err(cannot_open()), c, t1),
            Some(head) => {
                let c1 = c.advanced();
                match announced_length(head) {
                    Err(e) => (Err(e), c1, t1),
                    Ok(len) => if !t1.offers(len + 16) {
                        (Err(eof()), c1, t1)
                    } else {
                        match c1.open_next(t1.next(len + 16)) {
                            None => (Err(cannot_open()), c1, t1.skip(len + 16)),
                            Some(payload) => (Ok(payload), c1.advanced(), t1.skip(len + 16)),
                        }
                    },
                }
            },
        }
    }
}

/// A chunk: its length sealed, then its payload sealed.
pub open spec fn chunk_bytes(c: CipherModel, payload: Seq<u8>) -> Seq<u8> {
    c.seal(be16_bytes(payload.len() as u16)) + c.advanced().seal(payload)
}

/// The view of a result whose value is bytes.
pub open spec fn bytes_result(r: Result<Vec<u8>, CoreError>) -> Result<Seq<u8>, ErrorModel> {
    match r {
        Ok(bytes) => Ok(bytes@),
        Err(e) => Err(e@),
    }
}

/// The reading side of a chunk stream: its cipher, and what was opened and not taken yet.
#[derive(Debug)]
pub struct ShadowsocksReader {
    pub cipher: ShadowsocksCipher,
    pub buffer: Vec<u8>,
}

impl ShadowsocksReader {
    /// A reader with a cipher.
    pub fn with_cipher(cipher: ShadowsocksCipher) -> (r: ShadowsocksReader)
        ensures
            r.cipher == cipher,
            r.buffer@.len() == 0,
    {
        ShadowsocksReader { cipher, buffer: Vec::new() }
    }

    /// A reader of a stream that begins with a salt.
    pub fn new(
        stream: &mut Exchange,
        method: ShadowsocksMethod,
        password: &str,
    ) -> (r: Result<ShadowsocksReader, CoreError>)
        requires
            old(stream).wf(),
        ensures
            final(stream).wf(),
            match r {
                Ok(reader) => {
                    &&& old(stream)@.offers(method.key_size())
                    &&& final(stream)@ == old(stream)@.skip(method.key_size())
                    &&& reader.cipher.wf()
                    &&& reader.cipher@ == session_cipher(
                        method,
                        password@,
                        old(stream)@.next(method.key_size()),
                    )
                    &&& reader.buffer@.len() == 0
                },
                Err(e) => {
                    &&& !old(stream)@.offers(method.key_size())
                    &&& final(stream)@ == old(stream)@
                    &&& e@ == eof()
                },
            },
    {
        match stream.take(method.salt_len()) {
            Ok(salt) => match ShadowsocksCipher::new(method, password, salt.as_slice()) {
                Ok(cipher) => Ok(ShadowsocksReader::with_cipher(cipher)),
                Err(e) => Err(e),
            },
            Err(e) => Err(e),
        }
    }

    /// Reads one chunk.
    pub fn read_chunk(&mut self, stream: &mut Exchange) -> (r: Result<Vec<u8>, CoreError>)
        requires
            old(self).cipher.wf(),
            old(stream).wf(),
        ensures
            final(self).cipher.wf(),
            final(self).buffer == old(self).buffer,
            final(stream).wf(),
            (bytes_result(r), final(self).cipher@, final(stream)@) == chunk(
                old(self).cipher@,
                old(stream)@,
            ),
            r is Ok ==> 0 < r->Ok_0@.len() <= MAX_CHUNK_LEN,
    {
        let mut head = match stream.take(2 + TAG_LEN) {
            Ok(head) => head,
            Err(e) => {
                return Err(e);
            },
        };
        match self.cipher.decrypt(&mut head) {
            Ok(()) => {},
            Err(e) => {
                return Err(e);
            },
        }
        let len = match chunk_length(head.as_slice()) {
            Ok(len) => len,
            Err(e) => {
                return Err(e);
            },
        };
        let mut payload = match stream.take(len + TAG_LEN) {
            Ok(payload) => payload,
            Err(e) => {
                return Err(e);
            },
        };
        match self.cipher.decrypt(&mut payload) {
            Ok(()) => Ok(payload),
            Err(e) => Err(e),
        }
    }

    /// Takes up to `max` opened bytes, reading a chunk where none are left.
    pub fn read(&mut self, stream: &mut Exchange, max: usize) -> (r: Result<Vec<u8>, CoreError>)
        requires
            old(self).cipher.wf(),
            old(stream).wf(),
        ensures
            final(self).cipher.wf(),
            final(stream).wf(),
            max == 0 || old(self).buffer@.len() > 0 ==> final(self).cipher == old(self).cipher
                && final(stream)@ == old(stream)@ && r is Ok && r->Ok_0@ + final(self).buffer@
                == old(self).buffer@,
            max > 0 && old(self).buffer@.len() == 0 ==> {
                let (opened, c, t) = chunk(old(self).cipher@, old(stream)@);
                &&& final(self).cipher@ == c
                &&& final(stream)@ == t
                &&& match r {
                    Ok(bytes) => opened == Ok::<Seq<u8>, ErrorModel>(
                        bytes@ + final(self).buffer@,
                    ),
                    Err(e) => opened == Err::<Seq<u8>, ErrorModel>(e@)
                        && final(self).buffer@.len() == 0,
                }
            },
            r is Ok ==> r->Ok_0@.len() <= max,
            r is Ok && max > 0 ==> r->Ok_0@.len() > 0,
            r is Ok && r->Ok_0@.len() < max ==> final(self).buffer@.len() == 0 || max == 0,
    {
        if max == 0 {
            let none: Vec<u8> = Vec::new();
            assert(none@ + self.buffer@ =~= self.buffer@);
            return Ok(none);
        }
        if self.buffer.len() == 0 {
            match self.read_chunk(stream) {
                Ok(payload) => {
                    self.buffer = payload;
                },
                Err(e) => {
                    return Err(e);
                },
            }
        }
        let len: usize = if max < self.buffer.len() {
            max
        } else {
            self.buffer.len()
        };
        let taken = copy_bytes(self.buffer.as_slice(), 0, len);
        let left = copy_bytes(self.buffer.as_slice(), len, self.buffer.len());
        assert(taken@ + left@ =~= self.buffer@);
        self.buffer = left;
        Ok(taken)
    }
}

/// The writing side of a chunk stream.
#[derive(Debug)]
pub struct ShadowsocksWriter {
    pub cipher: ShadowsocksCipher,
}

impl ShadowsocksWriter {
    /// A writer whose stream begins with the given salt.
    pub fn with_salt(method: ShadowsocksMethod, password: &str, salt: &[u8]) -> (r: Result<
        ShadowsocksWriter,
        CoreError,
    >)
        ensures
            r is Ok,
            r->Ok_0.cipher.wf(),
            r->Ok_0.cipher@ == session_cipher(method, password@, salt@),
    {
        match ShadowsocksCipher::new(method, password, salt) {
            Ok(cipher) => Ok(ShadowsocksWriter { cipher }),
            Err(e) => Err(e),
        }
    }

    /// A writer with a random salt, and that salt, which is to be sent first.
    pub fn new_response(method: ShadowsocksMethod, password: &str) -> (r: Result<
        (ShadowsocksWriter, Vec<u8>),
        CoreError,
    >)
        ensures
            r matches Ok((writer, salt)) ==> {
                &&& salt@.len() == method.key_size()
                &&& writer.cipher.wf()
                &&& writer.cipher@ == session_cipher(method, password@, salt@)
            },
            r matches Err(e) ==> no_salt(e),
    {
        match random_salt(method) {
            Ok(salt) => match ShadowsocksWriter::with_salt(method, password, salt.as_slice()) {
                Ok(writer) => Ok((writer, salt)),
                Err(e) => Err(e),
            },
            Err(e) => Err(e),
        }
    }

    /// Seals one chunk. A reader with the same cipher reads the payload back from it.
    pub fn write_chunk(&mut self, payload: &[u8]) -> (r: Result<Vec<u8>, CoreError>)
        requires
            old(self).cipher.wf(),
            0 < payload@.len() <= MAX_CHUNK_LEN,
        ensures
            final(self).cipher.wf(),
            r is Ok,
            r->Ok_0@ == chunk_bytes(old(self).cipher@, payload@),
            final(self).cipher@ == old(self).cipher@.advanced().advanced(),
            chunk(old(self).cipher@, arrived(r->Ok_0@)) == (
                Ok::<Seq<u8>, ErrorModel>(payload@),
                final(self).cipher@,
                arrived(r->Ok_0@).skip(r->Ok_0@.len()),
            ),
    {
        let ghost c = self.cipher@;
        let mut out: Vec<u8> = Vec::new();
        push_be16(&mut out, payload.len() as u16);
        let ghost head = out@;
        assert(head =~= be16_bytes(payload@.len() as u16));
        match self.cipher.encrypt(&mut out) {
            Ok(()) => {},
            Err(e) => {
                return Err(e);
            },
        }
        let ghost sealed_head = out@;
        let mut body = copy_bytes(payload, 0, payload.len());
        assert(body@ =~= payload@);
        match self.cipher.encrypt(&mut body) {
            Ok(()) => {},
            Err(e) => {
                return Err(e);
            },
        }
        push_bytes(&mut out, body.as_slice());
        proof {
            let t = arrived(out@);
            lemma_be16(payload@.len() as u16);
            assert(t.next(18) =~= sealed_head);
            assert(t.skip(18).next((payload@.len() + 16) as nat) =~= body@);
            assert(announced_length(head) == Ok::<nat, ErrorModel>(payload@.len()));
        }
        Ok(out)
    }

    /// Seals as much of the input as one chunk takes; returns the bytes to send, and how much
    /// of the input they hold.
    pub fn write(&mut self, input: &[u8]) -> (r: Result<(Vec<u8>, usize), CoreError>)
        requires
            old(self).cipher.wf(),
        ensures
            final(self).cipher.wf(),
            r is Ok,
            r->Ok_0.1 == (if input@.len() < MAX_CHUNK_LEN {
                input@.len() as usize
            } else {
                MAX_CHUNK_LEN
            }),
            input@.len() == 0 ==> r->Ok_0.0@.len() == 0 && final(self).cipher == old(self).cipher,
            input@.len() > 0 ==> {
                let part = input@.subrange(0, r->Ok_0.1 as int);
                &&& r->Ok_0.0@ == chunk_bytes(old(self).cipher@, part)
                &&& final(self).cipher@ == old(self).cipher@.advanced().advanced()
                &&& chunk(old(self).cipher@, arrived(r->Ok_0.0@)) == (
                    Ok::<Seq<u8>, ErrorModel>(part),
                    final(self).cipher@,
                    arrived(r->Ok_0.0@).skip(r->Ok_0.0@.len()),
                )
            },
    {
        if input.len() == 0 {
            return Ok((Vec::new(), 0));
        }
        let len: usize = if input.len() < MAX_CHUNK_LEN {
            input.len()
        } else {
            MAX_CHUNK_LEN
        };
        match self.write_chunk(vstd::slice::slice_subrange(input, 0, len)) {
            Ok(bytes) => Ok((bytes, len)),
            Err(e) => Err(e),
        }
    }
}

/// Whether an error says that the system gave no random bytes for a salt.
pub open spec fn no_salt(e: CoreError) -> bool {
    &&& e.kind == ErrorKind::Other
    &&& "generate shadowsocks salt: "@.is_prefix_of(e.message@)
}

/// A random salt for a session.
pub(crate) fn random_salt(method: ShadowsocksMethod) -> (r: Result<Vec<u8>, CoreError>)
    ensures
        r is Ok ==> r->Ok_0@.len() == method.key_size(),
        r is Err ==> no_salt(r->Err_0),
{
    match random_bytes(method.salt_len()) {
        Ok(salt) => Ok(salt),
        Err(error) => {
            let mut message = "generate shadowsocks salt: ".to_owned();
            message.append(error.as_str());
            Err(CoreError { kind: ErrorKind::Other, message })
        },
    }
}

/// The target at the head of a request, and what follows it.
pub open spec fn request_payload(payload: Seq<u8>) -> Result<(TargetModel, Seq<u8>), ErrorModel> {
    let t = arrived(payload);
    if !t.offers(1) {
        Err(eof())
    } else {
        let (target, t1) = read_target(
            t.skip(1),
            t.next(1)[0],
            fault(ErrorKind::InvalidData, "unsupported shadowsocks address type"@),
        );
        match target {
            Ok(target) => Ok((target, t1.rest())),
            Err(e) => Err(e),
        }
    }
}

/// The view of a result whose value is a target and a payload.
pub open spec fn payload_result(r: Result<(SocksTarget, Vec<u8>), CoreError>) -> Result<
    (TargetModel, Seq<u8>),
    ErrorModel,
> {
    match r {
        Ok((target, payload)) => Ok((target@, payload@)),
        Err(e) => Err(e@),
    }
}

/// The target at the head of a request, and what follows it.
pub fn parse_request_payload(payload: Vec<u8>) -> (r: Result<(SocksTarget, Vec<u8>), CoreError>)
    ensures
        payload_result(r) == request_payload(payload@),
{
    let mut stream = Exchange::new(payload);
    let kind = match stream.take(1) {
        Ok(kind) => kind,
        Err(e) => {
            return Err(e);
        },
    };
    match take_target(&mut stream, kind[0], "unsupported shadowsocks address type") {
        Ok(target) => {
            let rest = copy_bytes(stream.input.as_slice(), stream.position, stream.input.len());
            Ok((target, rest))
        },
        Err(e) => Err(e),
    }
}

/// Bytes that arrive later do not change a chunk that was read, nor a refusal that is not for
/// want of bytes; they are what the next chunk is read from.
pub proof fn law_chunk_is_incremental(c: CipherModel, t: Tape, more: Seq<u8>)
    requires
        t.wf(),
        chunk(c, t).0 != Err::<Seq<u8>, ErrorModel>(eof()),
    ensures
        chunk(c, extended(t, more)) == (
            chunk(c, t).0,
            chunk(c, t).1,
            extended(chunk(c, t).2, more),
        ),
{
    lemma_extended(t, more);
    assert(t.offers(18));
    let t1 = t.skip(18);
    lemma_extended(t1, more);
    if let Some(head) = c.open_next(t.next(18)) {
        if let Ok(len) = announced_length(head) {
            assert(t1.offers(len + 16));
        }
    }
}

/// A request names its own socket address and reads back with what follows it.
pub proof fn law_request_reads_back(source: SocketModel, payload: Seq<u8>)
    requires
        source.ip.well_formed(),
    ensures
        request_payload(address_bytes(source) + payload) == Ok::<(TargetModel, Seq<u8>), ErrorModel>(
            (TargetModel { host: source.ip.text(), port: source.port }, payload),
        ),
{
    let bytes = address_bytes(source) + payload;
    let t = arrived(bytes);
    lemma_be16(source.port);
    match source.ip {
        crate::address::IpModel::V4(o) => {
            let t1 = t.skip(1);
            assert(t1.next(4) =~= o);
            let t2 = t1.skip(4);
            assert(t2.next(2) =~= be16_bytes(source.port));
            assert(t2.skip(2).rest() =~= payload);
        },
        crate::address::IpModel::V6(o) => {
            let t1 = t.skip(1);
            assert(t1.next(16) =~= o);
            let t2 = t1.skip(16);
            assert(t2.next(2) =~= be16_bytes(source.port));
            assert(t2.skip(2).rest() =~= payload);
        },
    }
}

} // verus!
