//! Verified text rendering: decimal numbers, durations, and the derived
//! connection URL a successful connect returns. Every function's result is
//! pinned down, character for character, by a spec function.

use vstd::prelude::*;

verus! {

/// The character for one decimal digit.
pub open spec fn digit_char(d: nat) -> char {
    if d == 0 {
        '0'
    } else if d == 1 {
        '1'
    } else if d == 2 {
        '2'
    } else if d == 3 {
        '3'
    } else if d == 4 {
        '4'
    } else if d == 5 {
        '5'
    } else if d == 6 {
        '6'
    } else if d == 7 {
        '7'
    } else if d == 8 {
        '8'
    } else {
        '9'
    }
}

/// The decimal rendering of `n`, most significant digit first, with no
/// leading zeros (`0` renders as "0").
pub open spec fn dec_digits(n: nat) -> Seq<char>
    decreases n,
{
    if n < 10 {
        seq![digit_char(n)]
    } else {
        dec_digits(n / 10).push(digit_char(n % 10))
    }
}

fn digit_str(d: u64) -> (r: &'static str)
    requires
        d < 10,
    ensures
        r@ == seq![digit_char(d as nat)],
{
    proof {
        reveal_strlit("0");
        reveal_strlit("1");
        reveal_strlit("2");
        reveal_strlit("3");
        reveal_strlit("4");
        reveal_strlit("5");
        reveal_strlit("6");
        reveal_strlit("7");
        reveal_strlit("8");
        reveal_strlit("9");
    }
    let r = if d == 0 {
        "0"
    } else if d == 1 {
        "1"
    } else if d == 2 {
        "2"
    } else if d == 3 {
        "3"
    } else if d == 4 {
        "4"
    } else if d == 5 {
        "5"
    } else if d == 6 {
        "6"
    } else if d == 7 {
        "7"
    } else if d == 8 {
        "8"
    } else {
        "9"
    };
    proof {
        assert(r@ =~= seq![digit_char(d as nat)]);
    }
    r
}

fn push_decimal(s: &mut String, n: u64)
    ensures
        final(s)@ == old(s)@ + dec_digits(n as nat),
    decreases n,
{
    if n < 10 {
        s.append(digit_str(n));
    } else {
        push_decimal(s, n / 10);
        s.append(digit_str(n % 10));
        proof {
            assert(final(s)@ =~= old(s)@ + dec_digits(n as nat));
        }
    }
}

/// Renders `n` in decimal.
pub fn u64_to_string(n: u64) -> (r: String)
    ensures
        r@ == dec_digits(n as nat),
{
    let mut s = String::new();
    push_decimal(&mut s, n);
    proof {
        assert(s@ =~= dec_digits(n as nat));
    }
    s
}

/// The URL a client uses to reach a backend: scheme, backend id as a
/// subdomain of the cluster, and a trailing slash.
pub open spec fn connect_url_spec(cluster: Seq<char>, backend_id: u64) -> Seq<char> {
    "https://"@ + dec_digits(backend_id as nat) + "."@ + cluster + "/"@
}

/// Builds the connection URL for a backend in a cluster.
pub fn connect_url(cluster: &String, backend_id: u64) -> (r: String)
    ensures
        r@ == connect_url_spec(cluster@, backend_id),
{
    let mut s = String::from_str("https://");
    let digits = u64_to_string(backend_id);
    s.append(digits.as_str());
    s.append(".");
    s.append(cluster.as_str());
    s.append("/");
    proof {
        assert(s@ =~= connect_url_spec(cluster@, backend_id));
    }
    s
}

/// A duration in whole seconds shown in its largest fitting unit:
/// days, hours, minutes, or seconds.
pub open spec fn duration_text(secs: nat) -> Seq<char> {
    if secs >= 86400 {
        dec_digits(secs / 86400) + seq!['d']
    } else if secs >= 3600 {
        dec_digits(secs / 3600) + seq!['h']
    } else if secs >= 60 {
        dec_digits(secs / 60) + seq!['m']
    } else {
        dec_digits(secs) + seq!['s']
    }
}

/// Formats a duration of `secs` seconds as its largest fitting unit.
pub fn format_duration(secs: u64) -> (r: String)
    ensures
        r@ == duration_text(secs as nat),
{
    proof {
        reveal_strlit("d");
        reveal_strlit("h");
        reveal_strlit("m");
        reveal_strlit("s");
    }
    let (n, unit): (u64, &'static str) = if secs >= 86400 {
        (secs / 86400, "d")
    } else if secs >= 3600 {
        (secs / 3600, "h")
    } else if secs >= 60 {
        (secs / 60, "m")
    } else {
        (secs, "s")
    };
    let r = u64_to_string(n).concat(unit);
    proof {
        assert(r@ =~= duration_text(secs as nat));
    }
    r
}

} // verus!
