//! TLS: certificates, server names, records, and the classes of handshake errors.

use rustls::pki_types::{PrivateKeyDer, ServerName};
use vstd::prelude::*;

use crate::error::{failure, fault, CoreError, ErrorKind, ErrorModel};
use crate::numeral::{decimal, decimal_text};
use crate::text::{chars_of, contains, contains_text, lower, lowered, same_text, trim, trimmed};
use crate::wire::{be16, join_be16, push_bytes};

verus! {

/// The length of the head of a record.
pub const TLS_HEADER_LEN: usize = 5;

/// How much a record may hold.
pub const MAX_TLS_RECORD_LEN: usize = 18_432;

/// How much of a record is read at a time.
pub const TLS_READ_CHUNK: usize = 16_384;

/// Why a handshake failed.
#[derive(Clone, Copy, Debug, PartialEq, Eq, Structural)]
pub enum TlsHandshakeErrorClass {
    ClientClosed,
    SniRejected,
    InvalidHandshake,
    Io,
}

/// The class of an error that ended a handshake.
pub open spec fn handshake_class(e: ErrorModel) -> TlsHandshakeErrorClass {
    if e.kind == ErrorKind::UnexpectedEof || e.kind == ErrorKind::ConnectionAborted || e.kind
        == ErrorKind::ConnectionReset || e.kind == ErrorKind::BrokenPipe {
        TlsHandshakeErrorClass::ClientClosed
    } else if e.kind == ErrorKind::InvalidData || e.kind == ErrorKind::PermissionDenied {
        let message = lower(e.message);
        if contains(message, "no certificates available"@) || contains(
            message,
            "certificate resolver"@,
        ) || contains(message, "sni"@) {
            TlsHandshakeErrorClass::SniRejected
        } else {
            TlsHandshakeErrorClass::InvalidHandshake
        }
    } else {
        TlsHandshakeErrorClass::Io
    }
}

/// The class of an error that ended a handshake.
pub fn classify_tls_handshake_error(error: &CoreError) -> (r: TlsHandshakeErrorClass)
    ensures
        r == handshake_class(error@),
{
    let kind = error.kind;
    if kind == ErrorKind::UnexpectedEof || kind == ErrorKind::ConnectionAborted || kind
        == ErrorKind::ConnectionReset || kind == ErrorKind::BrokenPipe {
        return TlsHandshakeErrorClass::ClientClosed;
    }
    if kind == ErrorKind::InvalidData || kind == ErrorKind::PermissionDenied {
        let message = lowered(error.message.as_str());
        if contains_text(message.as_str(), "no certificates available") || contains_text(
            message.as_str(),
            "certificate resolver",
        ) || contains_text(message.as_str(), "sni") {
            return TlsHandshakeErrorClass::SniRejected;
        }
        return TlsHandshakeErrorClass::InvalidHandshake;
    }
    TlsHandshakeErrorClass::Io
}

/// Whether a name ends with a dot and the suffix.
pub open spec fn is_under(name: Seq<char>, suffix: Seq<char>) -> bool {
    let at = name.len() - suffix.len();
    at > 0 && name[at - 1] == '.' && name.subrange(at, name.len() as int) == suffix
}

/// Whether the name that a client asks for is the expected one; an expected name that begins
/// with an asterisk and a dot stands for all names under what follows.
pub open spec fn sni_match(expected: Seq<char>, server_name: Seq<char>) -> bool {
    let name = lower(trim(server_name));
    ||| expected == name
    ||| expected.len() >= 2 && expected[0] == '*' && expected[1] == '.' && is_under(
        name,
        expected.subrange(2, expected.len() as int),
    )
}

/// Whether the name that a client asks for is the expected one.
pub fn sni_matches(expected_name: &str, server_name: &str) -> (r: bool)
    ensures
        r == sni_match(expected_name@, server_name@),
{
    let clean = trimmed(server_name);
    let name_text = lowered(clean.as_str());
    if same_text(expected_name, name_text.as_str()) {
        return true;
    }
    let expected = chars_of(expected_name);
    let name = chars_of(name_text.as_str());
    if expected.len() < 2 || expected[0] != '*' || expected[1] != '.' {
        return false;
    }
    let len: usize = expected.len() - 2;
    let ghost suffix = expected@.subrange(2, expected@.len() as int);
    if name.len() <= len {
        return false;
    }
    let at: usize = name.len() - len;
    if name[at - 1] != '.' {
        return false;
    }
    let ghost tail = name@.subrange(at as int, name@.len() as int);
    let mut i: usize = 0;
    while i < len
        invariant
            i <= len,
            at + len == name.len(),
            len + 2 == expected.len(),
            suffix == expected@.subrange(2, expected@.len() as int),
            tail == name@.subrange(at as int, name@.len() as int),
            name@ == lower(trim(server_name@)),
            expected@ == expected_name@,
            expected_name@ != name@,
            forall|k: int| 0 <= k < i ==> #[trigger] tail[k] == suffix[k],
        decreases len - i,
    {
        if name[at + i] != expected[2 + i] {
            assert(tail[i as int] != suffix[i as int]);
            return false;
        }
        i += 1;
    }
    assert(tail =~= suffix);
    true
}

/// An expected name with an asterisk matches exactly the names that end with a dot and the rest.
pub proof fn law_wildcard_matches_names_below(suffix: Seq<char>, server_name: Seq<char>)
    ensures
        sni_match(seq!['*', '.'] + suffix, server_name) <==> exists|label: Seq<char>| #[trigger]
            label.push('.') + suffix == lower(trim(server_name)),
{
    let expected = seq!['*', '.'] + suffix;
    let name = lower(trim(server_name));
    assert(expected.subrange(2, expected.len() as int) =~= suffix);
    if sni_match(expected, server_name) {
        if expected == name {
            assert(seq!['*'].push('.') + suffix =~= name);
        } else {
            let at = name.len() - suffix.len();
            let label = name.subrange(0, at - 1);
            assert(label.push('.') + suffix =~= name);
        }
    }
    if exists|label: Seq<char>| #[trigger] label.push('.') + suffix == name {
        let label = choose|label: Seq<char>| #[trigger] label.push('.') + suffix == name;
        let at = name.len() - suffix.len();
        assert(name[at - 1] == '.');
        assert(name.subrange(at, name.len() as int) =~= suffix);
    }
}

/// A name without an asterisk matches itself alone, whatever the case of the letters.
pub proof fn law_plain_name_matches_itself_alone(expected: Seq<char>, server_name: Seq<char>)
    requires
        expected.len() > 0,
        expected[0] != '*',
    ensures
        sni_match(expected, server_name) <==> lower(trim(server_name)) == expected,
{
}

/// The name that clients have to ask for where others are rejected; none where they are not.
pub fn expected_server_name(server_name: &str, reject_unknown_sni: bool) -> (r: Result<
    Option<String>,
    CoreError,
>)
    ensures
        match r {
            Ok(Some(name)) => reject_unknown_sni && trim(server_name@).len() > 0 && name@ == lower(
                trim(server_name@),
            ),
            Ok(None) => !reject_unknown_sni,
            Err(e) => reject_unknown_sni && trim(server_name@).len() == 0 && e@ == fault(
                ErrorKind::InvalidInput,
                "reject_unknown_sni requires server_name"@,
            ),
        },
{
    if !reject_unknown_sni {
        return Ok(None);
    }
    let name = trimmed(server_name);
    if name.as_str().is_empty() {
        return Err(failure(ErrorKind::InvalidInput, "reject_unknown_sni requires server_name"));
    }
    Ok(Some(lowered(name.as_str())))
}

/// Whether a text names a TLS server: as a host name, or as an IP address.
pub uninterp spec fn names_tls_server(value: Seq<char>) -> bool;

/// `rustls::pki_types::ServerName::try_from`: whether it takes the text, which depends on nothing
/// but the text.
#[verifier::external_body]
pub(crate) fn is_tls_server_name(value: &str) -> (r: bool)
    ensures
        r == names_tls_server(value@),
{
    ServerName::try_from(value).is_ok()
}

/// The notation in which a private key is given.
#[derive(Clone, Copy, Debug, PartialEq, Eq, Structural)]
pub enum PrivateKeyKind {
    Pkcs1,
    Sec1,
    Pkcs8,
}

/// A private key in one of its notations.
#[derive(Debug)]
pub struct PrivateKey {
    pub kind: PrivateKeyKind,
    pub der: Vec<u8>,
}

/// The certificates in a PEM file, or the message of the error that reading it ends with.
pub uninterp spec fn pem_certificates(bytes: Seq<u8>) -> Result<Seq<Seq<u8>>, Seq<char>>;

/// The first private key in a PEM file, or the message of the error that reading it ends with.
pub uninterp spec fn pem_private_key(bytes: Seq<u8>) -> Result<
    Option<(PrivateKeyKind, Seq<u8>)>,
    Seq<char>,
>;

/// The bytes of a list of bytes.
pub open spec fn byte_lists(lists: Seq<Vec<u8>>) -> Seq<Seq<u8>> {
    lists.map_values(|list: Vec<u8>| list@)
}

/// `rustls_pemfile::certs` on bytes in memory: the certificates, or the message of the first
/// error; both depend on nothing but the bytes.
#[verifier::external_body]
fn read_pem_certificates(bytes: &[u8]) -> (r: Result<Vec<Vec<u8>>, String>)
    ensures
        match r {
            Ok(certs) => pem_certificates(bytes@) == Ok::<Seq<Seq<u8>>, Seq<char>>(
                byte_lists(certs@),
            ),
            Err(message) => pem_certificates(bytes@) == Err::<Seq<Seq<u8>>, Seq<char>>(message@),
        },
{
    let mut reader = bytes;
    rustls_pemfile::certs(&mut reader)
        .map(|item| item.map(|der| der.to_vec()).map_err(|error| error.to_string()))
        .collect()
}

/// `rustls_pemfile::private_key` on bytes in memory: the first key, or the message of the error;
/// both depend on nothing but the bytes.
#[verifier::external_body]
fn read_pem_private_key(bytes: &[u8]) -> (r: Result<Option<(PrivateKeyKind, Vec<u8>)>, String>)
    ensures
        match r {
            Ok(Some((kind, der))) => pem_private_key(bytes@) == Ok::<
                Option<(PrivateKeyKind, Seq<u8>)>,
                Seq<char>,
            >(Some((kind, der@))),
            Ok(None) => pem_private_key(bytes@) == Ok::<
                Option<(PrivateKeyKind, Seq<u8>)>,
                Seq<char>,
            >(None),
            Err(message) => pem_private_key(bytes@) == Err::<
                Option<(PrivateKeyKind, Seq<u8>)>,
                Seq<char>,
            >(message@),
        },
{
    let mut reader = bytes;
    let key = rustls_pemfile::private_key(&mut reader).map_err(|error| error.to_string())?;
    Ok(key.and_then(|key| match key {
        PrivateKeyDer::Pkcs1(key) => Some((PrivateKeyKind::Pkcs1, key.secret_pkcs1_der().to_vec())),
        PrivateKeyDer::Sec1(key) => Some((PrivateKeyKind::Sec1, key.secret_sec1_der().to_vec())),
        PrivateKeyDer::Pkcs8(key) => Some((PrivateKeyKind::Pkcs8, key.secret_pkcs8_der().to_vec())),
        _ => None,
    }))
}

/// What reading the certificates of a file comes to: a file without any is an error.
pub open spec fn loaded_certificates(read: Result<Seq<Seq<u8>>, Seq<char>>) -> Result<
    Seq<Seq<u8>>,
    ErrorModel,
> {
    match read {
        Ok(certs) => if certs.len() == 0 {
            Err(
                fault(
                    ErrorKind::InvalidInput,
                    "tls certificate file does not contain certificates"@,
                ),
            )
        } else {
            Ok(certs)
        },
        Err(message) => Err(fault(ErrorKind::InvalidData, message)),
    }
}

/// What reading the private key of a file comes to: a file without one is an error.
pub open spec fn loaded_private_key(
    read: Result<Option<(PrivateKeyKind, Seq<u8>)>, Seq<char>>,
) -> Result<(PrivateKeyKind, Seq<u8>), ErrorModel> {
    match read {
        Ok(Some(key)) => Ok(key),
        Ok(None) => Err(
            fault(
                ErrorKind::InvalidInput,
                "tls private key file does not contain a private key"@,
            ),
        ),
        Err(message) => Err(fault(ErrorKind::InvalidData, message)),
    }
}

/// Checks what reading the certificates of a file gave.
pub fn check_certificates(read: Result<Vec<Vec<u8>>, String>) -> (r: Result<
    Vec<Vec<u8>>,
    CoreError,
>)
    ensures
        match r {
            Ok(certs) => read == Ok::<Vec<Vec<u8>>, String>(certs) && certs@.len() > 0,
            Err(e) => match read {
                Ok(certs) => certs@.len() == 0 && e@ == fault(
                    ErrorKind::InvalidInput,
                    "tls certificate file does not contain certificates"@,
                ),
                Err(message) => e@ == fault(ErrorKind::InvalidData, message@),
            },
        },
{
    match read {
        Ok(certs) => if certs.len() == 0 {
            Err(
                failure(
                    ErrorKind::InvalidInput,
                    "tls certificate file does not contain certificates",
                ),
            )
        } else {
            Ok(certs)
        },
        Err(message) => Err(CoreError { kind: ErrorKind::InvalidData, message }),
    }
}

/// Checks what reading the private key of a file gave.
pub fn check_private_key(read: Result<Option<(PrivateKeyKind, Vec<u8>)>, String>) -> (r: Result<
    PrivateKey,
    CoreError,
>)
    ensures
        match r {
            Ok(key) => read == Ok::<Option<(PrivateKeyKind, Vec<u8>)>, String>(
                Some((key.kind, key.der)),
            ),
            Err(e) => match read {
                Ok(key) => key is None && e@ == fault(
                    ErrorKind::InvalidInput,
                    "tls private key file does not contain a private key"@,
                ),
                Err(message) => e@ == fault(ErrorKind::InvalidData, message@),
            },
        },
{
    match read {
        Ok(Some((kind, der))) => Ok(PrivateKey { kind, der }),
        Ok(None) => Err(
            failure(
                ErrorKind::InvalidInput,
                "tls private key file does not contain a private key",
            ),
        ),
        Err(message) => Err(CoreError { kind: ErrorKind::InvalidData, message }),
    }
}

/// The certificates in a PEM file.
pub fn load_certs(bytes: &[u8]) -> (r: Result<Vec<Vec<u8>>, CoreError>)
    ensures
        match r {
            Ok(certs) => loaded_certificates(pem_certificates(bytes@)) == Ok::<
                Seq<Seq<u8>>,
                ErrorModel,
            >(byte_lists(certs@)),
            Err(e) => loaded_certificates(pem_certificates(bytes@)) == Err::<
                Seq<Seq<u8>>,
                ErrorModel,
            >(e@),
        },
{
    check_certificates(read_pem_certificates(bytes))
}

/// The first private key in a PEM file.
pub fn load_private_key(bytes: &[u8]) -> (r: Result<PrivateKey, CoreError>)
    ensures
        match r {
            Ok(key) => loaded_private_key(pem_private_key(bytes@)) == Ok::<
                (PrivateKeyKind, Seq<u8>),
                ErrorModel,
            >((key.kind, key.der@)),
            Err(e) => loaded_private_key(pem_private_key(bytes@)) == Err::<
                (PrivateKeyKind, Seq<u8>),
                ErrorModel,
            >(e@),
        },
{
    check_private_key(read_pem_private_key(bytes))
}

/// How much the record holds that begins with a head.
pub open spec fn content_len(head: Seq<u8>) -> nat {
    be16(head[3], head[4]) as nat
}

/// The part of a record that has arrived, and the length of the record once it is known.
#[derive(Debug)]
pub struct TlsRecordReader {
    pub buf: Vec<u8>,
    pub target_len: Option<usize>,
}

/// What is to be done next about a record.
#[derive(Debug)]
pub enum RecordStep {
    /// Read up to so many bytes.
    Read(usize),
    /// Pass the record on.
    Complete(Vec<u8>),
}

impl TlsRecordReader {
    /// The length, where it is known, is the one that the head says, and no byte behind the
    /// record was read.
    pub open spec fn wf(&self) -> bool {
        match self.target_len {
            Some(target) => {
                &&& TLS_HEADER_LEN <= self.buf@.len() <= target
                &&& target == TLS_HEADER_LEN + content_len(self.buf@)
                &&& content_len(self.buf@) <= MAX_TLS_RECORD_LEN
            },
            None => self.buf@.len() <= TLS_HEADER_LEN,
        }
    }

    /// How many bytes may be read next without reading behind the record.
    pub open spec fn missing(&self) -> int {
        match self.target_len {
            Some(target) => target - self.buf@.len(),
            None => TLS_HEADER_LEN - self.buf@.len(),
        }
    }

    /// Nothing of a record.
    pub fn new() -> (r: TlsRecordReader)
        ensures
            r.wf(),
            r.buf@.len() == 0,
            r.target_len is None,
    {
        TlsRecordReader { buf: Vec::new(), target_len: None }
    }

    /// What is to be done next: read on, or pass on the record that is complete. A record that
    /// holds too much is an error.
    pub fn next(&mut self) -> (r: Result<RecordStep, CoreError>)
        requires
            old(self).wf(),
        ensures
            final(self).wf(),
            match r {
                Ok(RecordStep::Read(want)) => {
                    &&& final(self).buf@ == old(self).buf@
                    &&& final(self).missing() > 0
                    &&& want == (if final(self).missing() < TLS_READ_CHUNK {
                        final(self).missing()
                    } else {
                        TLS_READ_CHUNK as int
                    })
                    &&& final(self).target_len is Some == (old(self).buf@.len() >= TLS_HEADER_LEN)
                },
                Ok(RecordStep::Complete(record)) => {
                    &&& record@ == old(self).buf@
                    &&& record@.len() == TLS_HEADER_LEN + content_len(record@)
                    &&& content_len(record@) <= MAX_TLS_RECORD_LEN
                    &&& final(self).buf@.len() == 0
                    &&& final(self).target_len is None
                },
                Err(e) => {
                    &&& old(self).buf@.len() >= TLS_HEADER_LEN
                    &&& content_len(old(self).buf@) > MAX_TLS_RECORD_LEN
                    &&& e@ == fault(
                        ErrorKind::InvalidData,
                        "tls record too large: "@ + decimal(content_len(old(self).buf@)),
                    )
                    &&& final(self).buf@ == old(self).buf@
                    &&& final(self).target_len == old(self).target_len
                },
            },
    {
        let target: usize = match self.target_len {
            Some(target) => target,
            None => {
                if self.buf.len() < TLS_HEADER_LEN {
                    return Ok(RecordStep::Read(TLS_HEADER_LEN - self.buf.len()));
                }
                let len: usize = join_be16(self.buf[3], self.buf[4]) as usize;
                if len > MAX_TLS_RECORD_LEN {
                    let mut message = "tls record too large: ".to_owned();
                    let digits = decimal_text(len as u64);
                    message.append(digits.as_str());
                    return Err(CoreError { kind: ErrorKind::InvalidData, message });
                }
                TLS_HEADER_LEN + len
            },
        };
        self.target_len = Some(target);
        if self.buf.len() < target {
            let rest: usize = target - self.buf.len();
            let want: usize = if rest < TLS_READ_CHUNK {
                rest
            } else {
                TLS_READ_CHUNK
            };
            return Ok(RecordStep::Read(want));
        }
        self.target_len = None;
        let mut record: Vec<u8> = Vec::new();
        std::mem::swap(&mut record, &mut self.buf);
        Ok(RecordStep::Complete(record))
    }

    /// Takes what was read; whether the socket was closed between two records. A socket that is
    /// closed within one is an error.
    pub fn read(&mut self, bytes: &[u8]) -> (r: Result<bool, CoreError>)
        requires
            old(self).wf(),
            bytes@.len() <= old(self).missing(),
        ensures
            final(self).wf(),
            final(self).target_len == old(self).target_len,
            final(self).buf@ == old(self).buf@ + bytes@,
            if bytes@.len() > 0 {
                r == Ok::<bool, CoreError>(false)
            } else if old(self).target_len is Some {
                r is Err && r->Err_0@ == fault(
                    ErrorKind::UnexpectedEof,
                    "tls socket closed during record body"@,
                )
            } else if old(self).buf@.len() == 0 {
                r == Ok::<bool, CoreError>(true)
            } else {
                r is Err && r->Err_0@ == fault(
                    ErrorKind::UnexpectedEof,
                    "tls socket closed during record header"@,
                )
            },
    {
        push_bytes(&mut self.buf, bytes);
        assert(forall|i: int| 0 <= i < old(self).buf@.len() ==> self.buf@[i] == old(self).buf@[i]);
        if bytes.len() > 0 {
            return Ok(false);
        }
        assert(self.buf@ =~= old(self).buf@);
        if self.target_len.is_some() {
            return Err(failure(ErrorKind::UnexpectedEof, "tls socket closed during record body"));
        }
        if self.buf.len() == 0 {
            Ok(true)
        } else {
            Err(failure(ErrorKind::UnexpectedEof, "tls socket closed during record header"))
        }
    }
}

} // verus!
