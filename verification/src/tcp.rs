//! Where the server listens: the address to bind, and the addresses to try
//! when it is left to the server to find one.

use crate::xdr::append_bytes;
use vstd::prelude::*;

verus! {

/// The character `0`.
pub const ZERO: u8 = 48;

/// The character `:`.
pub const COLON: u8 = 58;

/// The character `+`.
pub const PLUS: u8 = 43;

/// The digits of a number, in ASCII.
pub open spec fn decimal(n: nat) -> Seq<u8>
    decreases n,
{
    if n < 10 {
        seq![(48 + n) as u8]
    } else {
        decimal(n / 10).push((48 + n % 10) as u8)
    }
}

/// The text `127.88.`, in ASCII.
pub open spec fn host_prefix() -> Seq<u8> {
    seq![49u8, 50u8, 55u8, 46u8, 56u8, 56u8, 46u8]
}

/// The address of host `hostnum` in the network `127.88`, in ASCII: the
/// high byte of the number, then the low byte.
pub open spec fn host_ip(hostnum: u16) -> Seq<u8> {
    host_prefix() + decimal(hostnum as nat / 256) + seq![46u8] + decimal(hostnum as nat % 256)
}

/// The text of ASCII bytes.
pub open spec fn ascii_text(bytes: Seq<u8>) -> Seq<char> {
    Seq::new(bytes.len(), |i: int| bytes[i] as char)
}

/// The text of one digit.
fn digit_text(d: u8) -> (s: &'static str)
    requires
        d < 10,
    ensures
        s@ == ascii_text(seq![(48 + d) as u8]),
{
    proof {
        reveal_strlit("0");
        reveal_strlit("1");
        reveal_strlit("2");
        reveal_strlit("3");
        reveal_strlit("4");
        reveal_strlit("5");
        reveal_strlit("6");
        reveal_strlit("7");
        reveal_strlit("8");
        reveal_strlit("9");
    }
    let s = match d {
        0 => "0",
        1 => "1",
        2 => "2",
        3 => "3",
        4 => "4",
        5 => "5",
        6 => "6",
        7 => "7",
        8 => "8",
        _ => "9",
    };
    assert(s@ =~= ascii_text(seq![(48 + d) as u8]));
    s
}

/// Appends the digits of a byte.
pub fn append_decimal(out: &mut String, n: u8)
    ensures
        final(out)@ == old(out)@ + ascii_text(decimal(n as nat)),
{
    reveal_with_fuel(decimal, 3);
    if n >= 100 {
        out.append(digit_text(n / 100));
        out.append(digit_text(n / 10 % 10));
        out.append(digit_text(n % 10));
    } else if n >= 10 {
        out.append(digit_text(n / 10));
        out.append(digit_text(n % 10));
    } else {
        out.append(digit_text(n));
    }
    assert(out@ =~= old(out)@ + ascii_text(decimal(n as nat)));
}

/// The address of host `hostnum` in the network `127.88`.
pub fn generate_host_ip(hostnum: u16) -> (ip: String)
    ensures
        ip@ == ascii_text(host_ip(hostnum)),
{
    proof {
        reveal_strlit("127.88.");
        reveal_strlit(".");
    }
    let mut text = String::new();
    text.append("127.88.");
    assert(text@ =~= ascii_text(host_prefix()));
    append_decimal(&mut text, (hostnum / 256) as u8);
    text.append(".");
    append_decimal(&mut text, (hostnum % 256) as u8);
    assert(text@ =~= ascii_text(host_ip(hostnum)));
    text
}

/// Why an address cannot be bound.
#[derive(Copy, Clone, Debug, PartialEq, Eq, Structural)]
pub enum BindError {
    /// The address is not of the form `ip:port`.
    NoPort,
    /// The port is not a number from 0 to 65535.
    BadPort,
}

/// The position of the first `:` in an address, or its length if it has
/// none.
pub open spec fn colon_at(addr: Seq<u8>) -> int
    decreases addr.len(),
{
    if addr.len() == 0 || addr[0] == 58 {
        0
    } else {
        1 + colon_at(addr.skip(1))
    }
}

/// The number that digits spell, if they are digits and there are some.
/// Numbers past 65535 count as 65536.
pub open spec fn digits_value(text: Seq<u8>) -> Option<nat>
    decreases text.len(),
{
    if text.len() == 0 {
        None
    } else if !(48 <= text.last() <= 57) {
        None
    } else if text.len() == 1 {
        Some((text.last() - 48) as nat)
    } else {
        match digits_value(text.drop_last()) {
            None => None,
            Some(high) => {
                let v = high * 10 + (text.last() - 48);
                Some(if v > 65535 { 65536nat } else { v as nat })
            },
        }
    }
}

/// The port that a text names: digits, with a `+` before them or not, that
/// spell a number up to 65535.
pub open spec fn port_of(text: Seq<u8>) -> Option<u16> {
    let digits = if text.len() > 0 && text[0] == 43 {
        text.skip(1)
    } else {
        text
    };
    match digits_value(digits) {
        Some(v) => if v <= 65535 {
            Some(v as u16)
        } else {
            None
        },
        None => None,
    }
}

/// What an address of the form `ip:port` names: the host before the first
/// `:`, and the port after it.
pub open spec fn listen_address(addr: Seq<u8>) -> Result<(Seq<u8>, u16), BindError> {
    let at = colon_at(addr);
    if at >= addr.len() {
        Err(BindError::NoPort)
    } else {
        match port_of(addr.skip(at + 1)) {
            Some(port) => Ok((addr.take(at), port)),
            None => Err(BindError::BadPort),
        }
    }
}

/// The position of the first `:` in an address, or its length.
pub fn find_colon(addr: &[u8]) -> (at: usize)
    ensures
        at == colon_at(addr@),
        at <= addr@.len(),
{
    let n: usize = addr.len();
    let mut i: usize = 0;
    assert(addr@.skip(0) =~= addr@);
    while i < n && addr[i] != COLON
        invariant
            i <= n,
            n == addr@.len(),
            colon_at(addr@) == i + colon_at(addr@.skip(i as int)),
        decreases n - i,
    {
        proof {
            let rest = addr@.skip(i as int);
            assert(rest[0] == addr@[i as int]);
            assert(rest.skip(1) =~= addr@.skip(i + 1));
        }
        i = i + 1;
    }
    proof {
        let rest = addr@.skip(i as int);
        if i < n {
            assert(rest[0] == addr@[i as int]);
        }
    }
    i
}

/// The port that a text names.
pub fn parse_port(text: &[u8]) -> (port: Option<u16>)
    ensures
        port == port_of(text@),
{
    let n: usize = text.len();
    let start: usize = if n > 0 && text[0] == PLUS {
        1
    } else {
        0
    };
    let ghost digits = text@.skip(start as int);
    assert(text@.skip(0) =~= text@);
    if start == n {
        return None;
    }
    let mut value: u32 = 0;
    let mut i: usize = start;
    while i < n
        invariant
            start <= i <= n,
            start < n,
            n == text@.len(),
            digits == text@.skip(start as int),
            digits == if text@.len() > 0 && text@[0] == 43 {
                text@.skip(1)
            } else {
                text@
            },
            value <= 65536,
            i == start ==> value == 0,
            i > start ==> digits_value(digits.take(i - start)) == Some(value as nat),
        decreases n - i,
    {
        let b: u8 = text[i];
        proof {
            let upto = digits.take(i + 1 - start);
            assert(upto.last() == b);
            assert(upto.drop_last() =~= digits.take(i - start));
            assert(upto.len() == i + 1 - start);
            assert(digits[i - start] == b);
        }
        if b < ZERO || b > ZERO + 9 {
            proof {
                lemma_bad_digit(digits, i - start);
            }
            return None;
        }
        let v: u32 = value * 10 + (b - ZERO) as u32;
        value = if v > 65535 {
            65536
        } else {
            v
        };
        i = i + 1;
    }
    assert(digits.take(n - start) =~= digits);
    if value <= 65535 {
        Some(value as u16)
    } else {
        None
    }
}

/// Text with a byte that is no digit spells no number.
pub proof fn lemma_bad_digit(text: Seq<u8>, at: int)
    requires
        0 <= at < text.len(),
        !(48 <= text[at] <= 57),
    ensures
        digits_value(text) is None,
    decreases text.len(),
{
    if at < text.len() - 1 {
        lemma_bad_digit(text.drop_last(), at);
    }
}

/// What an address of the form `ip:port` names.
pub fn parse_listen_address(addr: &[u8]) -> (r: Result<(Vec<u8>, u16), BindError>)
    ensures
        match listen_address(addr@) {
            Ok((host, port)) => r matches Ok((h, p)) && h@ == host && p == port,
            Err(e) => r matches Err(f) && f == e,
        },
{
    let at = find_colon(addr);
    if at >= addr.len() {
        return Err(BindError::NoPort);
    }
    let tail = vstd::slice::slice_subrange(addr, at + 1, addr.len());
    assert(tail@ =~= addr@.skip(at + 1));
    match parse_port(tail) {
        Some(port) => {
            let mut host: Vec<u8> = Vec::new();
            append_bytes(&mut host, vstd::slice::slice_subrange(addr, 0, at));
            assert(host@ =~= addr@.take(at as int));
            Ok((host, port))
        },
        None => Err(BindError::BadPort),
    }
}

/// How many addresses the server tries when it is left to find one.
pub const AUTO_BIND_ATTEMPTS: u16 = 32;

/// Whether a host is the word `auto`: the server is to find an address.
pub fn is_auto(host: &[u8]) -> (b: bool)
    ensures
        b == (host@ == seq![97u8, 117u8, 116u8, 111u8]),
{
    if host.len() != 4 {
        return false;
    }
    let b = host[0] == 97 && host[1] == 117 && host[2] == 116 && host[3] == 111;
    proof {
        if b {
            assert(host@ =~= seq![97u8, 117u8, 116u8, 111u8]);
        }
    }
    b
}

/// The address to try at attempt `attempt`, counted from one, when the
/// server is left to find one: host `attempt` of the network `127.88`,
/// while there are attempts left.
pub fn auto_bind_host(attempt: u16) -> (host: Option<String>)
    ensures
        match host {
            Some(ip) => 1 <= attempt <= AUTO_BIND_ATTEMPTS && ip@ == ascii_text(host_ip(attempt)),
            None => attempt == 0 || attempt > AUTO_BIND_ATTEMPTS,
        },
{
    if attempt >= 1 && attempt <= AUTO_BIND_ATTEMPTS {
        Some(generate_host_ip(attempt))
    } else {
        None
    }
}

} // verus!
