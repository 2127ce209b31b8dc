//! The settings of a REALITY gateway.

use vstd::prelude::*;

use crate::config::InboundConfig;
use crate::error::{failure, fault, ErrorKind};
use crate::numeral::{
    decimal, decimal_text, is_digit, lemma_numeral_value, parse_chars, parse_unsigned, without_plus,
};
use crate::service_error::{bind_error, CoreServiceError};
use crate::text::{
    chars_of, is_space, lemma_split_append, lemma_split_single, split, split_chars, trim, trim_end,
    trim_start, trimmed, views,
};

verus! {

/// What follows the first closing bracket that a colon follows.
pub open spec fn after_bracket(s: Seq<char>) -> Option<Seq<char>>
    decreases s.len(),
{
    if s.len() < 2 {
        None
    } else if s[0] == ']' && s[1] == ':' {
        Some(s.subrange(2, s.len() as int))
    } else {
        after_bracket(s.subrange(1, s.len() as int))
    }
}

/// Whether a text is the number of a port.
pub open spec fn is_port(s: Seq<char>) -> bool {
    parse_unsigned(s, 10, 65535) is Some
}

/// Whether a destination names its port: behind a bracketed host, or behind its only colon.
pub open spec fn names_port(dest: Seq<char>) -> bool {
    let d = trim(dest);
    if d.len() > 0 && d[0] == '[' {
        match after_bracket(d.subrange(1, d.len() as int)) {
            Some(port) => is_port(port),
            None => false,
        }
    } else {
        let pieces = split(d, ':');
        pieces.len() == 2 && is_port(pieces[1])
    }
}

/// Whether a destination names its port.
pub fn has_explicit_port(dest: &str) -> (r: bool)
    ensures
        r == names_port(dest@),
{
    let clean = trimmed(dest);
    let chars = chars_of(clean.as_str());
    let n: usize = chars.len();
    if n > 0 && chars[0] == '[' {
        let ghost rest = chars@.subrange(1, n as int);
        let mut i: usize = 1;
        while i < n && n - i >= 2 && !(chars[i] == ']' && chars[i + 1] == ':')
            invariant
                1 <= i <= n,
                n == chars@.len(),
                rest == chars@.subrange(1, n as int),
                after_bracket(rest) == after_bracket(chars@.subrange(i as int, n as int)),
            decreases n - i,
        {
            proof {
                let here = chars@.subrange(i as int, n as int);
                assert(here[0] == chars@[i as int]);
                assert(here[1] == chars@[i + 1]);
                assert(here.subrange(1, here.len() as int) =~= chars@.subrange(i + 1, n as int));
            }
            i += 1;
        }
        let ghost here = chars@.subrange(i as int, n as int);
        if n - i < 2 {
            return false;
        }
        assert(here[0] == chars@[i as int]);
        assert(here[1] == chars@[i + 1]);
        assert(here.subrange(2, here.len() as int) =~= chars@.subrange(i + 2, n as int));
        return parse_chars(chars.as_slice(), i + 2, 10, 65535).is_some();
    }
    let pieces = split_chars(chars.as_slice(), 0, n, ':');
    assert(chars@.subrange(0, n as int) =~= chars@);
    if pieces.len() != 2 {
        return false;
    }
    assert(views(pieces@)[1] == pieces@[1]@);
    assert(pieces@[1]@.subrange(0, pieces@[1]@.len() as int) =~= pieces@[1]@);
    parse_chars(pieces[1].as_slice(), 0, 10, 65535).is_some()
}

/// The destination with a port: as it stands where it names one or where none is given.
pub open spec fn with_port(dest: Seq<char>, server_port: Option<u16>) -> Seq<char> {
    let d = trim(dest);
    match server_port {
        Some(port) => if names_port(d) {
            d
        } else if d.contains(':') {
            "["@ + d + "]:"@ + decimal(port as nat)
        } else {
            d + ":"@ + decimal(port as nat)
        },
        None => d,
    }
}

/// The destination with a port.
pub fn reality_dest(dest: &str, server_port: Option<u16>) -> (r: String)
    ensures
        r@ == with_port(dest@, server_port),
{
    let clean = trimmed(dest);
    if has_explicit_port(clean.as_str()) {
        return clean;
    }
    match server_port {
        Some(port) => {
            let digits = decimal_text(port as u64);
            let chars = chars_of(clean.as_str());
            let mut i: usize = 0;
            while i < chars.len() && chars[i] != ':'
                invariant
                    i <= chars@.len(),
                    forall|k: int| 0 <= k < i ==> #[trigger] chars@[k] != ':',
                decreases chars.len() - i,
            {
                i += 1;
            }
            if i < chars.len() {
                assert(chars@[i as int] == ':');
                assert(clean@.contains(':'));
                let mut text = "[".to_owned();
                text.append(clean.as_str());
                text.append("]:");
                text.append(digits.as_str());
                text
            } else {
                assert(!clean@.contains(':'));
                let mut text = clean;
                text.append(":");
                text.append(digits.as_str());
                text
            }
        },
        None => clean,
    }
}

/// The settings of a REALITY gateway.
#[derive(Debug)]
pub struct RealityGatewayConfig {
    pub private_key: Vec<u8>,
    pub server_name: String,
    pub short_id: Vec<u8>,
    /// How far the clock of a client may be off, in seconds; unlimited where it is not given.
    pub max_time_diff_secs: Option<u64>,
    pub dest: String,
    pub connect_timeout_secs: u64,
    pub probe_dest_on_auth: bool,
}

/// What the settings of an inbound come to, given its decoded key and short id.
pub open spec fn gateway_of(
    inbound: InboundConfig,
    private_key: Result<Vec<u8>, String>,
    short_id: Result<Vec<u8>, String>,
    connect_secs: u64,
    r: Result<RealityGatewayConfig, CoreServiceError>,
) -> bool {
    match inbound.tls {
        None => r is Err && r->Err_0.is_bind(
            inbound.tag@,
            fault(ErrorKind::InvalidInput, "vless reality requires tls"@),
        ),
        Some(tls) => match tls.reality {
            None => r is Err && r->Err_0.is_bind(
                inbound.tag@,
                fault(ErrorKind::InvalidInput, "vless reality requires reality config"@),
            ),
            Some(reality) => match (private_key, short_id) {
                (Err(message), _) => r is Err && r->Err_0.is_bind(
                    inbound.tag@,
                    fault(ErrorKind::InvalidInput, message@),
                ),
                (Ok(_), Err(message)) => r is Err && r->Err_0.is_bind(
                    inbound.tag@,
                    fault(ErrorKind::InvalidInput, message@),
                ),
                (Ok(key), Ok(id)) => {
                    &&& r is Ok
                    &&& r->Ok_0.private_key == key
                    &&& r->Ok_0.short_id == id
                    &&& r->Ok_0.max_time_diff_secs is None
                    &&& r->Ok_0.server_name@ == trim(tls.server_name@)
                    &&& r->Ok_0.dest@ == with_port(reality.dest@, reality.server_port)
                    &&& r->Ok_0.connect_timeout_secs == connect_secs
                    &&& !r->Ok_0.probe_dest_on_auth
                },
            },
        },
    }
}

/// The settings of a REALITY gateway, given the inbound's decoded key and short id.
pub fn reality_gateway_config(
    inbound: &InboundConfig,
    private_key: Result<Vec<u8>, String>,
    short_id: Result<Vec<u8>, String>,
    connect_secs: u64,
) -> (r: Result<RealityGatewayConfig, CoreServiceError>)
    ensures
        gateway_of(*inbound, private_key, short_id, connect_secs, r),
{
    let tag = inbound.tag.as_str();
    let tls = match &inbound.tls {
        Some(tls) => tls,
        None => {
            return Err(
                bind_error(tag, failure(ErrorKind::InvalidInput, "vless reality requires tls")),
            );
        },
    };
    let reality = match &tls.reality {
        Some(reality) => reality,
        None => {
            return Err(
                bind_error(
                    tag,
                    failure(ErrorKind::InvalidInput, "vless reality requires reality config"),
                ),
            );
        },
    };
    let key = match private_key {
        Ok(key) => key,
        Err(message) => {
            return Err(bind_error(tag, failure(ErrorKind::InvalidInput, message.as_str())));
        },
    };
    let id = match short_id {
        Ok(id) => id,
        Err(message) => {
            return Err(bind_error(tag, failure(ErrorKind::InvalidInput, message.as_str())));
        },
    };
    Ok(
        RealityGatewayConfig {
            private_key: key,
            server_name: trimmed(tls.server_name.as_str()),
            short_id: id,
            max_time_diff_secs: None,
            dest: reality_dest(reality.dest.as_str(), reality.server_port),
            connect_timeout_secs: connect_secs,
            probe_dest_on_auth: false,
        },
    )
}

/// A text that neither begins nor ends with white space is trimmed.
proof fn lemma_already_trimmed(s: Seq<char>)
    requires
        s.len() > 0,
        !is_space(s[0]),
        !is_space(s[s.len() - 1]),
    ensures
        trim(s) == s,
{
}

/// A text without white space at its start keeps that start where its end is trimmed.
proof fn lemma_trim_end_keeps_start(s: Seq<char>)
    ensures
        trim_end(s).len() > 0 ==> trim_end(s)[0] == s[0],
        trim_end(s).len() <= s.len(),
    decreases s.len(),
{
    if s.len() > 0 && is_space(s[s.len() - 1]) {
        lemma_trim_end_keeps_start(s.subrange(0, s.len() - 1));
    }
}

/// A text without its leading white space begins with none.
proof fn lemma_trim_start_first(s: Seq<char>)
    ensures
        trim_start(s).len() > 0 ==> !is_space(trim_start(s)[0]),
    decreases s.len(),
{
    if s.len() > 0 && is_space(s[0]) {
        lemma_trim_start_first(s.subrange(1, s.len() as int));
    }
}

/// What follows the first closing bracket with a colon, where the text before has none.
proof fn lemma_after_bracket(d: Seq<char>, port: Seq<char>)
    requires
        after_bracket(d) is None,
    ensures
        after_bracket(d + seq![']', ':'] + port) == Some(port),
    decreases d.len(),
{
    let s = d + seq![']', ':'] + port;
    if d.len() == 0 {
        assert(s.subrange(2, s.len() as int) =~= port);
    } else {
        let rest = d.subrange(1, d.len() as int);
        assert(s[0] == d[0]);
        if d.len() >= 2 {
            assert(s[1] == d[1]);
        } else {
            assert(s[1] == ']');
        }
        lemma_after_bracket(rest, port);
        assert(s.subrange(1, s.len() as int) =~= rest + seq![']', ':'] + port);
    }
}

/// The notation of a port is that of a port, and holds neither white space nor a colon.
proof fn lemma_port_text(port: u16)
    ensures
        ({
            let p = decimal(port as nat);
            &&& p.len() > 0
            &&& is_port(p)
            &&& !p.contains(':')
            &&& forall|i: int| 0 <= i < p.len() ==> !is_space(#[trigger] p[i])
        }),
{
    let p = decimal(port as nat);
    lemma_numeral_value(port as nat, 10);
    assert(is_digit(p[0], 10));
    assert(without_plus(p) == p);
    assert forall|i: int| 0 <= i < p.len() implies !is_space(#[trigger] p[i]) && p[i] != ':' by {
        assert(is_digit(p[i], 10));
    }
}

/// A destination that is given a port names one, except where its host already holds a closing
/// bracket with a colon behind it, or begins with a bracket and holds no colon.
pub proof fn law_given_port_is_named(dest: Seq<char>, port: u16)
    requires
        names_port(trim(dest)) || if trim(dest).contains(':') {
            after_bracket(trim(dest)) is None
        } else {
            trim(dest).len() == 0 || trim(dest)[0] != '['
        },
    ensures
        names_port(with_port(dest, Some(port))),
{
    let d = trim(dest);
    let p = decimal(port as nat);
    let t = with_port(dest, Some(port));
    lemma_port_text(port);
    if names_port(d) {
    } else if d.contains(':') {
        reveal_strlit("[");
        reveal_strlit("]:");
        assert("]:"@ =~= seq![']', ':']);
        assert(t[0] == '[');
        assert(t[t.len() - 1] == p[p.len() - 1]);
        lemma_already_trimmed(t);
        lemma_after_bracket(d, p);
        assert(t.subrange(1, t.len() as int) =~= d + seq![']', ':'] + p);
    } else {
        reveal_strlit(":");
        assert(t =~= d.push(':') + p);
        assert(t[t.len() - 1] == p[p.len() - 1]);
        lemma_trim_start_first(dest);
        lemma_trim_end_keeps_start(trim_start(dest));
        if d.len() > 0 {
            assert(t[0] == d[0]);
        } else {
            assert(t[0] == ':');
        }
        lemma_already_trimmed(t);
        lemma_split_append(d, ':', p);
        lemma_split_single(d, ':');
        assert(split(t, ':') =~= seq![d, p]);
    }
}

} // verus!
