//! The SOCKS5 handshake: greeting, CONNECT request and replies.
use vstd::prelude::*;
use vstd::string::StringExecFns;
use vstd::utf8::{decode_utf8, valid_utf8};

verus! {

/// The protocol version byte of SOCKS5.
pub const SOCKS_VERSION: u8 = 5;

/// Authentication methods the proxy can select.
#[derive(Debug, PartialEq, Eq, Structural)]
pub enum AuthMethod {
    NoAuth,
}

impl AuthMethod {
    pub fn from_u8(value: u8) -> (r: Option<Self>)
        ensures
            r == (if value == 0 { Some(AuthMethod::NoAuth) } else { None::<AuthMethod> }),
    {
        match value {
            0 => Some(AuthMethod::NoAuth),
            _ => None,
        }
    }

    pub fn to_u8(&self) -> (r: u8)
        ensures
            r == 0,
    {
        match self {
            AuthMethod::NoAuth => 0,
        }
    }
}

/// SOCKS5 commands the proxy accepts.
#[derive(Debug, PartialEq, Eq, Structural)]
pub enum Command {
    Connect,
}

impl Command {
    pub fn from_u8(value: u8) -> (r: Option<Self>)
        ensures
            r == (if value == 1 { Some(Command::Connect) } else { None::<Command> }),
    {
        match value {
            1 => Some(Command::Connect),
            _ => None,
        }
    }
}

/// Why a handshake message is refused.
#[derive(Debug, PartialEq, Eq, Structural)]
pub enum SocksError {
    BadVersion,
    UnsupportedCommand,
    UnsupportedAddressType,
    MalformedRequest,
}

/// The method-selection reply owed to a greeting.
pub open spec fn spec_greeting(buf: Seq<u8>) -> Result<Seq<u8>, SocksError> {
    if buf.len() == 0 {
        Err(SocksError::MalformedRequest)
    } else if buf[0] != SOCKS_VERSION {
        Err(SocksError::BadVersion)
    } else if buf.len() < 2 || buf.len() < 2 + buf[1] {
        Err(SocksError::MalformedRequest)
    } else {
        Ok(seq![SOCKS_VERSION, 0u8])
    }
}

/// Reads `[VER, NMETHODS, METHODS...]` and answers with "no authentication".
pub fn negotiate(buf: &[u8]) -> (r: Result<Vec<u8>, SocksError>)
    ensures
        match r {
            Ok(v) => spec_greeting(buf@) == Ok::<Seq<u8>, SocksError>(v@),
            Err(e) => spec_greeting(buf@) == Err::<Seq<u8>, SocksError>(e),
        },
{
    if buf.len() == 0 {
        return Err(SocksError::MalformedRequest);
    }
    if buf[0] != SOCKS_VERSION {
        return Err(SocksError::BadVersion);
    }
    if buf.len() < 2 || buf.len() - 2 < buf[1] as usize {
        return Err(SocksError::MalformedRequest);
    }
    let reply = vec![SOCKS_VERSION, AuthMethod::NoAuth.to_u8()];
    assert(reply@ =~= seq![SOCKS_VERSION, 0u8]);
    Ok(reply)
}

/// Length of the whole greeting that starts with `head`; none while the
/// bytes that fix it have not been read. A greeting with a wrong version ends
/// after its first byte.
pub open spec fn spec_greeting_len(head: Seq<u8>) -> Option<nat> {
    if head.len() < 1 {
        None
    } else if head[0] != SOCKS_VERSION {
        Some(1)
    } else if head.len() < 2 {
        None
    } else {
        Some(2 + head[1] as nat)
    }
}

/// How many bytes the greeting starting with `head` takes in all.
pub fn greeting_len(head: &[u8]) -> (r: Option<usize>)
    ensures
        r matches Some(n) ==> spec_greeting_len(head@) == Some(n as nat),
        r is None ==> spec_greeting_len(head@) is None,
{
    if head.len() < 1 {
        None
    } else if head[0] != SOCKS_VERSION {
        Some(1)
    } else if head.len() < 2 {
        None
    } else {
        Some(2 + head[1] as usize)
    }
}

/// Length of the whole CONNECT request that starts with `head`; none while
/// the bytes that fix it have not been read. A request refused for its
/// version, command or address type ends at the byte that refuses it.
pub open spec fn spec_request_len(head: Seq<u8>) -> Option<nat> {
    if head.len() < 1 {
        None
    } else if head[0] != SOCKS_VERSION {
        Some(1)
    } else if head.len() < 2 {
        None
    } else if head[1] != 1 {
        Some(2)
    } else if head.len() < 4 {
        None
    } else if head[3] == 1 {
        Some(10)
    } else if head[3] == 3 {
        if head.len() < 5 { None } else { Some(7 + head[4] as nat) }
    } else {
        Some(4)
    }
}

/// How many bytes the CONNECT request starting with `head` takes in all.
pub fn request_len(head: &[u8]) -> (r: Option<usize>)
    ensures
        r matches Some(n) ==> spec_request_len(head@) == Some(n as nat),
        r is None ==> spec_request_len(head@) is None,
{
    if head.len() < 1 {
        None
    } else if head[0] != SOCKS_VERSION {
        Some(1)
    } else if head.len() < 2 {
        None
    } else if head[1] != 1 {
        Some(2)
    } else if head.len() < 4 {
        None
    } else if head[3] == 1 {
        Some(10)
    } else if head[3] == 3 {
        if head.len() < 5 { None } else { Some(7 + head[4] as usize) }
    } else {
        Some(4)
    }
}

/// A greeting read to exactly the length that its first bytes announce is
/// never refused as short.
pub proof fn lemma_framed_greeting_is_whole(buf: Seq<u8>)
    requires
        spec_greeting_len(buf) == Some(buf.len()),
    ensures
        spec_greeting(buf) != Err::<Seq<u8>, SocksError>(SocksError::MalformedRequest),
{
}

/// A CONNECT request read to exactly the length that its first bytes announce
/// is never refused as short.
pub proof fn lemma_framed_request_is_whole(buf: Seq<u8>)
    requires
        spec_request_len(buf) == Some(buf.len()),
    ensures
        spec_request_target(buf) != Err::<Seq<char>, SocksError>(SocksError::MalformedRequest),
{
}

/// The success reply to a CONNECT request, with an all-zero IPv4 bind address.
pub fn connect_reply() -> (r: Vec<u8>)
    ensures
        r@ == seq![5u8, 0, 0, 1, 0, 0, 0, 0, 0, 0],
{
    let r = vec![SOCKS_VERSION, 0, 0, 1, 0, 0, 0, 0, 0, 0];
    assert(r@ =~= seq![5u8, 0, 0, 1, 0, 0, 0, 0, 0, 0]);
    r
}

/// The decimal digit `d` as a character.
pub open spec fn digit_char(d: nat) -> char {
    if d == 0 { '0' } else if d == 1 { '1' } else if d == 2 { '2' } else if d == 3 { '3' }
    else if d == 4 { '4' } else if d == 5 { '5' } else if d == 6 { '6' } else if d == 7 { '7' }
    else if d == 8 { '8' } else { '9' }
}

/// Decimal notation of `n`, without leading zeros.
pub open spec fn decimal(n: nat) -> Seq<char>
    decreases n,
{
    if n < 10 {
        seq![digit_char(n)]
    } else {
        decimal(n / 10) + seq![digit_char(n % 10)]
    }
}

fn digit_str(d: u16) -> (r: &'static str)
    requires
        d < 10,
    ensures
        r@ == seq![digit_char(d as nat)],
{
    proof {
        reveal_strlit("0");
        reveal_strlit("1");
        reveal_strlit("2");
        reveal_strlit("3");
        reveal_strlit("4");
        reveal_strlit("5");
        reveal_strlit("6");
        reveal_strlit("7");
        reveal_strlit("8");
        reveal_strlit("9");
    }
    let r = match d {
        0 => "0",
        1 => "1",
        2 => "2",
        3 => "3",
        4 => "4",
        5 => "5",
        6 => "6",
        7 => "7",
        8 => "8",
        _ => "9",
    };
    assert(r@ =~= seq![digit_char(d as nat)]);
    r
}

/// Appends the decimal notation of `n` to `s`.
pub fn push_decimal(s: &mut String, n: u16)
    ensures
        final(s)@ == old(s)@ + decimal(n as nat),
    decreases n,
{
    if n >= 10 {
        push_decimal(s, n / 10);
    }
    s.append(digit_str(n % 10));
    assert(final(s)@ =~= old(s)@ + decimal(n as nat));
}

/// What String::from_utf8_lossy makes of `b`.
pub uninterp spec fn lossy_utf8(b: Seq<u8>) -> Seq<char>;

/// Relies on String::from_utf8_lossy: invalid sequences become U+FFFD, and
/// valid UTF-8 is decoded unchanged.
#[verifier::external_body]
fn utf8_lossy(b: &[u8]) -> (r: String)
    ensures
        r@ == lossy_utf8(b@),
        valid_utf8(b@) ==> r@ == decode_utf8(b@),
{
    String::from_utf8_lossy(b).into_owned()
}

/// A big-endian 16-bit port.
pub open spec fn port_of(hi: u8, lo: u8) -> nat {
    hi as nat * 256 + lo as nat
}

/// The `host:port` text of the CONNECT request in `buf`.
pub open spec fn spec_request_target(buf: Seq<u8>) -> Result<Seq<char>, SocksError> {
    if buf.len() == 0 {
        Err(SocksError::MalformedRequest)
    } else if buf[0] != SOCKS_VERSION {
        Err(SocksError::BadVersion)
    } else if buf.len() < 2 {
        Err(SocksError::MalformedRequest)
    } else if buf[1] != 1 {
        Err(SocksError::UnsupportedCommand)
    } else if buf.len() < 4 {
        Err(SocksError::MalformedRequest)
    } else if buf[3] == 1 {
        if buf.len() < 10 {
            Err(SocksError::MalformedRequest)
        } else {
            Ok(decimal(buf[4] as nat) + seq!['.'] + decimal(buf[5] as nat) + seq!['.']
                + decimal(buf[6] as nat) + seq!['.'] + decimal(buf[7] as nat) + seq![':']
                + decimal(port_of(buf[8], buf[9])))
        }
    } else if buf[3] == 3 {
        if buf.len() < 5 || buf.len() < 7 + buf[4] {
            Err(SocksError::MalformedRequest)
        } else {
            let l = buf[4] as int;
            Ok(lossy_utf8(buf.subrange(5, 5 + l)) + seq![':'] + decimal(port_of(buf[5 + l], buf[6 + l])))
        }
    } else {
        Err(SocksError::UnsupportedAddressType)
    }
}

/// The name bytes of a DOMAINNAME request.
pub open spec fn domain_bytes(buf: Seq<u8>) -> Seq<u8> {
    buf.subrange(5, 5 + buf[4] as int)
}

/// The port of a DOMAINNAME request, after the name.
pub open spec fn domain_port(buf: Seq<u8>) -> nat {
    port_of(buf[5 + buf[4] as int], buf[6 + buf[4] as int])
}

fn port_exec(hi: u8, lo: u8) -> (r: u16)
    ensures
        r as nat == port_of(hi, lo),
{
    (hi as u16) * 256 + (lo as u16)
}

/// Reads `[VER, CMD, RSV, ATYP, DST.ADDR, DST.PORT]` and gives the target as
/// `host:port`.
pub fn parse_connect_request(buf: &[u8]) -> (r: Result<String, SocksError>)
    ensures
        match r {
            Ok(s) => spec_request_target(buf@) == Ok::<Seq<char>, SocksError>(s@),
            Err(e) => spec_request_target(buf@) == Err::<Seq<char>, SocksError>(e),
        },
        r matches Ok(s) ==> (buf@[3] == 3 && valid_utf8(domain_bytes(buf@))
            ==> s@ == decode_utf8(domain_bytes(buf@)) + seq![':'] + decimal(domain_port(buf@))),
{
    if buf.len() == 0 {
        return Err(SocksError::MalformedRequest);
    }
    if buf[0] != SOCKS_VERSION {
        return Err(SocksError::BadVersion);
    }
    if buf.len() < 2 {
        return Err(SocksError::MalformedRequest);
    }
    if Command::from_u8(buf[1]).is_none() {
        return Err(SocksError::UnsupportedCommand);
    }
    if buf.len() < 4 {
        return Err(SocksError::MalformedRequest);
    }
    let mut s = String::new();
    if buf[3] == 1 {
        if buf.len() < 10 {
            return Err(SocksError::MalformedRequest);
        }
        push_decimal(&mut s, buf[4] as u16);
        s.append(".");
        push_decimal(&mut s, buf[5] as u16);
        s.append(".");
        push_decimal(&mut s, buf[6] as u16);
        s.append(".");
        push_decimal(&mut s, buf[7] as u16);
        s.append(":");
        push_decimal(&mut s, port_exec(buf[8], buf[9]));
        proof {
            reveal_strlit(".");
            reveal_strlit(":");
        }
        assert(s@ =~= spec_request_target(buf@).unwrap());
        Ok(s)
    } else if buf[3] == 3 {
        if buf.len() < 7 || buf.len() - 7 < buf[4] as usize {
            return Err(SocksError::MalformedRequest);
        }
        let l = buf[4] as usize;
        let name = buf.split_at(5).1.split_at(l).0;
        assert(name@ =~= buf@.subrange(5, 5 + l));
        let mut s = utf8_lossy(name);
        s.append(":");
        push_decimal(&mut s, port_exec(buf[5 + l], buf[6 + l]));
        proof {
            reveal_strlit(":");
        }
        assert(s@ =~= spec_request_target(buf@).unwrap());
        Ok(s)
    } else {
        Err(SocksError::UnsupportedAddressType)
    }
}

} // verus!
