//! The wire form of an HTTP sink: one request for each block, with the block
//! as its body, and no second try.
//!
//! Only what is computed stands here: where a URL points, the head of a
//! request, and what the first line of a response says. Whoever drives the
//! engine connects, sends the head and the block, and reads the response.

use crate::text::{
    all_digits, decimal_value, digit_value, parse_u64, parse_unsigned, same, split_once,
    split_once_spec,
};
use vstd::prelude::*;
use vstd::string::*;

verus! {

/// Where a URL points.
#[derive(Clone, Debug, PartialEq, Eq)]
pub struct Target {
    pub host: String,
    pub port: u16,
    /// The path and what follows it; it starts with a slash.
    pub path: String,
}

pub struct TargetView {
    pub host: Seq<char>,
    pub port: u16,
    pub path: Seq<char>,
}

impl View for Target {
    type V = TargetView;

    open spec fn view(&self) -> TargetView {
        TargetView { host: self.host@, port: self.port, path: self.path@ }
    }
}

/// The character that writes the digit `d`.
pub open spec fn digit_char(d: nat) -> char {
    ('0' as u32 + d as u32) as char
}

/// `n` in decimal, without a sign and without leading zeros.
pub open spec fn decimal_text(n: nat) -> Seq<char>
    decreases n,
{
    if n < 10 {
        seq![digit_char(n)]
    } else {
        decimal_text(n / 10).push(digit_char(n % 10))
    }
}

/// Where `url` points: it is `http://`, a host that is not empty, a colon
/// and a port unless the port is 80, and then nothing or a path that starts
/// with a slash; no path stands for `/`. `None` for anything else.
pub open spec fn target_spec(url: Seq<char>) -> Option<TargetView> {
    if url.len() < 7 || url.take(7) != "http://"@ {
        None
    } else {
        let rest = url.skip(7);
        let (authority, path) = match split_once_spec(rest, '/') {
            Some((authority, tail)) => (authority, seq!['/'] + tail),
            None => (rest, seq!['/']),
        };
        let (host, port) = match split_once_spec(authority, ':') {
            Some((host, port)) => (host, parse_unsigned(port, u16::MAX as nat)),
            None => (authority, Some(80nat)),
        };
        if host.len() == 0 || port is None {
            None
        } else {
            Some(TargetView { host, port: port->0 as u16, path })
        }
    }
}

/// The head of the request that carries a block of `length` bytes.
pub open spec fn request_head_spec(method: Seq<char>, target: TargetView, length: nat) -> Seq<
    char,
> {
    method + " "@ + target.path + " HTTP/1.1\r\nHost: "@ + target.host + ":"@ + decimal_text(
        target.port as nat,
    ) + "\r\nContent-Length: "@ + decimal_text(length) + "\r\nConnection: close\r\n\r\n"@
}

/// The status that the first line of a response gives: the line is `HTTP/`
/// and a version, a blank, three digits, and then nothing or a blank and a
/// phrase. `None` for anything else.
pub open spec fn status_spec(line: Seq<char>) -> Option<u16> {
    match split_once_spec(line, ' ') {
        None => None,
        Some((version, rest)) => if version.len() >= 5 && version.take(5) == "HTTP/"@ && rest.len()
            >= 3 && all_digits(rest.take(3)) && (rest.len() == 3 || rest[3] == ' ') {
            Some(decimal_value(rest.take(3)) as u16)
        } else {
            None
        },
    }
}

/// Whether a status says that the request was taken: 200 to 299.
pub open spec fn is_success_spec(status: u16) -> bool {
    200 <= status <= 299
}

/// The text of one digit.
fn digit(d: u64) -> (r: &'static str)
    requires
        d < 10,
    ensures
        r@ == seq![digit_char(d as nat)],
{
    let digits = "0123456789";
    proof {
        reveal_strlit("0123456789");
    }
    let r = digits.substring_char(d as usize, d as usize + 1);
    assert(r@ =~= seq![digit_char(d as nat)]);
    r
}

/// `n` in decimal.
pub fn decimal(n: u64) -> (r: String)
    ensures
        r@ == decimal_text(n as nat),
{
    let mut text: String = digit(n % 10).to_owned();
    let mut rest: u64 = n / 10;
    assert(seq![digit_char(n as nat % 10)] =~= Seq::<char>::empty().push(digit_char(n as nat % 10)));
    while rest > 0
        invariant
            decimal_text(n as nat) == if rest == 0 {
                text@
            } else {
                decimal_text(rest as nat) + text@
            },
        decreases rest,
    {
        let ghost before = text@;
        let ghost m = rest as nat;
        text = digit(rest % 10).to_owned().concat(text.as_str());
        rest = rest / 10;
        proof {
            if m < 10 {
                assert(decimal_text(m) + before =~= text@);
            } else {
                assert(decimal_text(m / 10).push(digit_char(m % 10)) + before =~= decimal_text(
                    m / 10,
                ) + text@);
            }
        }
    }
    text
}

/// Where `url` points, if it is a plain `http` URL.
pub fn target(url: &str) -> (r: Option<Target>)
    ensures
        match r {
            Some(t) => target_spec(url@) == Some(t@),
            None => target_spec(url@) is None,
        },
{
    let n: usize = url.unicode_len();
    if n < 7 || !same(url.substring_char(0, 7), "http://") {
        return None;
    }
    let rest: &str = url.substring_char(7, n);
    let mut path: String = "/".to_owned();
    proof {
        reveal_strlit("/");
        assert("/"@ =~= seq!['/']);
    }
    let authority: &str = match split_once(rest, '/') {
        Some((authority, tail)) => {
            path.append(tail);
            authority
        },
        None => rest,
    };
    let (host, port): (&str, u16) = match split_once(authority, ':') {
        Some((host, port_text)) => match parse_u64(port_text) {
            Some(p) => {
                if p > 0xffff {
                    return None;
                }
                (host, p as u16)
            },
            None => {
                return None;
            },
        },
        None => (authority, 80),
    };
    if host.unicode_len() == 0 {
        return None;
    }
    Some(Target { host: host.to_owned(), port, path })
}

/// The head of the request that carries a block of `length` bytes to
/// `target`: the request line, the host, the length of the body, and the
/// word that the connection is not kept.
pub fn request_head(method: &str, target: &Target, length: u64) -> (r: String)
    ensures
        r@ == request_head_spec(method@, target@, length as nat),
{
    let mut head: String = method.to_owned();
    head.append(" ");
    head.append(target.path.as_str());
    head.append(" HTTP/1.1\r\nHost: ");
    head.append(target.host.as_str());
    head.append(":");
    head.append(decimal(target.port as u64).as_str());
    head.append("\r\nContent-Length: ");
    head.append(decimal(length).as_str());
    head.append("\r\nConnection: close\r\n\r\n");
    head
}

/// The status that the first line of a response gives.
pub fn status(line: &str) -> (r: Option<u16>)
    ensures
        r == status_spec(line@),
{
    let (version, rest) = match split_once(line, ' ') {
        Some(parts) => parts,
        None => {
            return None;
        },
    };
    if version.unicode_len() < 5 || !same(version.substring_char(0, 5), "HTTP/") {
        return None;
    }
    let n: usize = rest.unicode_len();
    if n < 3 || (n > 3 && rest.get_char(3) != ' ') {
        return None;
    }
    let code: &str = rest.substring_char(0, 3);
    if code.get_char(0) == '+' {
        assert(!crate::text::is_digit(code@[0]));
        return None;
    }
    match parse_u64(code) {
        Some(v) => {
            proof {
                reveal_with_fuel(decimal_value, 4);
                assert(digit_value(code@[0]) <= 9 && digit_value(code@[1]) <= 9 && digit_value(
                    code@[2],
                ) <= 9);
                assert(code@.drop_last().drop_last().drop_last().len() == 0);
            }
            Some(v as u16)
        },
        None => {
            proof {
                if all_digits(code@) {
                    reveal_with_fuel(decimal_value, 4);
                    assert(digit_value(code@[0]) <= 9 && digit_value(code@[1]) <= 9 && digit_value(
                        code@[2],
                    ) <= 9);
                    assert(code@.drop_last().drop_last().drop_last().len() == 0);
                }
            }
            None
        },
    }
}

/// Whether a status says that the request was taken. Any other status is a
/// failed write.
pub fn is_success(status: u16) -> (r: bool)
    ensures
        r == is_success_spec(status),
{
    200 <= status && status <= 299
}

} // verus!
