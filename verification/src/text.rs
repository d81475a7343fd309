//! Numbers and names as text.

use vstd::prelude::*;
use vstd::string::{StrSliceExecFns, StringExecFns};

verus! {

/// The character that writes the digit `d`.
pub open spec fn digit_char(d: nat) -> char
    recommends
        d < 10,
{
    if d == 0 {
        '0'
    } else if d == 1 {
        '1'
    } else if d == 2 {
        '2'
    } else if d == 3 {
        '3'
    } else if d == 4 {
        '4'
    } else if d == 5 {
        '5'
    } else if d == 6 {
        '6'
    } else if d == 7 {
        '7'
    } else if d == 8 {
        '8'
    } else {
        '9'
    }
}

/// `n` written in decimal, without leading zeros.
pub open spec fn decimal(n: nat) -> Seq<char>
    decreases n,
{
    if n < 10 {
        seq![digit_char(n)]
    } else {
        decimal(n / 10).push(digit_char(n % 10))
    }
}

fn digit_str(d: u64) -> (r: &'static str)
    requires
        d < 10,
    ensures
        r@ == seq![digit_char(d as nat)],
{
    proof {
        reveal_strlit("0");
        reveal_strlit("1");
        reveal_strlit("2");
        reveal_strlit("3");
        reveal_strlit("4");
        reveal_strlit("5");
        reveal_strlit("6");
        reveal_strlit("7");
        reveal_strlit("8");
        reveal_strlit("9");
    }
    if d == 0 {
        "0"
    } else if d == 1 {
        "1"
    } else if d == 2 {
        "2"
    } else if d == 3 {
        "3"
    } else if d == 4 {
        "4"
    } else if d == 5 {
        "5"
    } else if d == 6 {
        "6"
    } else if d == 7 {
        "7"
    } else if d == 8 {
        "8"
    } else {
        "9"
    }
}

/// Appends `n`, written in decimal, to `text`.
pub fn append_decimal(text: &mut String, n: u64)
    ensures
        final(text)@ == old(text)@ + decimal(n as nat),
    decreases n,
{
    if n >= 10 {
        append_decimal(text, n / 10);
    }
    let ghost before = text@;
    text.append(digit_str(n % 10));
    proof {
        if n >= 10 {
            assert(before + seq![digit_char((n % 10) as nat)] =~= old(text)@ + decimal(
                (n / 10) as nat,
            ).push(digit_char((n % 10) as nat)));
        }
    }
}

/// `c` as it stands in the name of a log target: a hyphen becomes an
/// underscore.
pub open spec fn target_char(c: char) -> char {
    if c == '-' {
        '_'
    } else {
        c
    }
}

/// The log filter used where none is set: messages of `package`, from
/// informational ones upwards. It is the package's name, each hyphen
/// written as an underscore, followed by `=INFO`.
pub fn default_log_filter(package: &str) -> (r: String)
    ensures
        r@ == package@.map_values(|c: char| target_char(c)) + "=INFO"@,
{
    let mut text = String::from_str("");
    proof {
        reveal_strlit("");
    }
    let n = package.unicode_len();
    let mut i: usize = 0;
    while i < n
        invariant
            n == package@.len(),
            i <= n,
            text@ == package@.take(i as int).map_values(|c: char| target_char(c)),
        decreases n - i,
    {
        if package.get_char(i) == '-' {
            text.append("_");
        } else {
            text.append(package.substring_char(i, i + 1));
        }
        proof {
            reveal_strlit("_");
        }
        i += 1;
    }
    text.append("=INFO");
    text
}

} // verus!
