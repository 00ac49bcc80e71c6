use vstd::prelude::*;
use crate::directive::string_from_chars;

verus! {

/// Seconds allowed for connecting to the Authority.
pub const CONN_TIMEOUT_S: u64 = 5;

/// Seconds allowed for each read from and each write to the Authority.
pub const RESP_TIMEOUT_S: u64 = 30;

/// Where the Authority listens, and where commands come from.
pub struct Cli {
    /// Host name or IP address of the Authority.
    pub ca: String,
    /// TCP port of the Authority.
    pub port: u16,
    /// A file of commands, one per line; without one, commands are read
    /// interactively.
    pub cmd_file: Option<String>,
}

pub open spec fn digit_char(d: nat) -> char {
    if d == 0 {
        '0'
    } else if d == 1 {
        '1'
    } else if d == 2 {
        '2'
    } else if d == 3 {
        '3'
    } else if d == 4 {
        '4'
    } else if d == 5 {
        '5'
    } else if d == 6 {
        '6'
    } else if d == 7 {
        '7'
    } else if d == 8 {
        '8'
    } else {
        '9'
    }
}

/// `n` in decimal, without leading zeros.
pub open spec fn decimal(n: nat) -> Seq<char>
    decreases n,
{
    if n < 10 {
        seq![digit_char(n)]
    } else {
        decimal(n / 10).push(digit_char(n % 10))
    }
}

/// The text `host:port` that names the Authority.
pub open spec fn address_of(ca: Seq<char>, port: u16) -> Seq<char> {
    ca + seq![':'] + decimal(port as nat)
}

fn digit_to_char(d: u16) -> (r: char)
    requires
        d < 10,
    ensures
        r == digit_char(d as nat),
{
    if d == 0 {
        '0'
    } else if d == 1 {
        '1'
    } else if d == 2 {
        '2'
    } else if d == 3 {
        '3'
    } else if d == 4 {
        '4'
    } else if d == 5 {
        '5'
    } else if d == 6 {
        '6'
    } else if d == 7 {
        '7'
    } else if d == 8 {
        '8'
    } else {
        '9'
    }
}

fn push_decimal(n: u16, out: &mut Vec<char>)
    ensures
        final(out)@ == old(out)@ + decimal(n as nat),
    decreases n,
{
    if n >= 10 {
        push_decimal(n / 10, out);
    }
    out.push(digit_to_char(n % 10));
    assert(final(out)@ =~= old(out)@ + decimal(n as nat));
}

impl Cli {
    /// The address to dial: the host, a colon, and the port in decimal.
    pub fn address(&self) -> (r: String)
        ensures
            r@ == address_of(self.ca@, self.port),
    {
        let mut digits: Vec<char> = Vec::new();
        push_decimal(self.port, &mut digits);
        assert(digits@ =~= seq![] + decimal(self.port as nat));
        let port = string_from_chars(digits.as_slice());
        let colon = ":";
        proof {
            reveal_strlit(":");
        }
        self.ca.clone().concat(colon).concat(port.as_str())
    }
}

} // verus!
