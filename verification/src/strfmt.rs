//! Building the human-readable result strings of the daemon: decimal
//! rendering of window ids and counts, with an exact character-level
//! specification.

use vstd::prelude::*;
use vstd::string::StringExecFns;

verus! {

/// The decimal digit character for a value in `0..=9`.
pub open spec fn spec_digit(d: int) -> char {
    if d == 0 {
        '0'
    } else if d == 1 {
        '1'
    } else if d == 2 {
        '2'
    } else if d == 3 {
        '3'
    } else if d == 4 {
        '4'
    } else if d == 5 {
        '5'
    } else if d == 6 {
        '6'
    } else if d == 7 {
        '7'
    } else if d == 8 {
        '8'
    } else {
        '9'
    }
}

/// The usual decimal rendering of a non-negative integer: no leading
/// zeroes, except that zero itself is "0".
pub open spec fn spec_u64_string(n: int) -> Seq<char>
    decreases n,
{
    if n < 10 {
        seq![spec_digit(n)]
    } else {
        spec_u64_string(n / 10).push(spec_digit(n % 10))
    }
}

/// Renders `n` in decimal, exactly as [`spec_u64_string`] describes.
pub fn u64_to_string(n: u64) -> (r: String)
    ensures
        r@ == spec_u64_string(n as int),
    decreases n,
{
    let d: u64 = n % 10;
    let ds: &str = match d {
        0 => "0",
        1 => "1",
        2 => "2",
        3 => "3",
        4 => "4",
        5 => "5",
        6 => "6",
        7 => "7",
        8 => "8",
        _ => "9",
    };
    proof {
        reveal_strlit("0");
        reveal_strlit("1");
        reveal_strlit("2");
        reveal_strlit("3");
        reveal_strlit("4");
        reveal_strlit("5");
        reveal_strlit("6");
        reveal_strlit("7");
        reveal_strlit("8");
        reveal_strlit("9");
        assert(ds@ =~= seq![spec_digit(d as int)]);
    }
    if n < 10 {
        ds.to_owned()
    } else {
        let prefix = u64_to_string(n / 10);
        let r = prefix.concat(ds);
        proof {
            assert(r@ =~= spec_u64_string(n as int));
        }
        r
    }
}

/// `prefix`, then `n` in decimal, then `suffix`.
pub fn msg_u64(prefix: &str, n: u64, suffix: &str) -> (r: String)
    ensures
        r@ == prefix@ + spec_u64_string(n as int) + suffix@,
{
    prefix.to_owned().concat(u64_to_string(n).as_str()).concat(suffix)
}

/// `prefix`, then `n` in decimal.
pub fn msg_u64_end(prefix: &str, n: u64) -> (r: String)
    ensures
        r@ == prefix@ + spec_u64_string(n as int),
{
    prefix.to_owned().concat(u64_to_string(n).as_str())
}

/// `a`, then `n` in decimal, then `b`, then `m` in decimal, then `c`.
pub fn msg_u64_u64(a: &str, n: u64, b: &str, m: u64, c: &str) -> (r: String)
    ensures
        r@ == a@ + spec_u64_string(n as int) + b@ + spec_u64_string(m as int) + c@,
{
    a.to_owned().concat(u64_to_string(n).as_str()).concat(b).concat(u64_to_string(m).as_str()).concat(
        c,
    )
}

/// An optional string rendered for a listing: `None`, or the text in
/// `Some("...")`.
pub open spec fn spec_dbg_opt_str(o: Option<String>) -> Seq<char> {
    match o {
        None => "None"@,
        Some(s) => "Some(\""@ + s@ + "\")"@,
    }
}

/// An optional number rendered for a listing: `None`, or `Some(n)`.
pub open spec fn spec_dbg_opt_u64(o: Option<u64>) -> Seq<char> {
    match o {
        None => "None"@,
        Some(n) => "Some("@ + spec_u64_string(n as int) + ")"@,
    }
}

/// Renders exactly [`spec_dbg_opt_str`].
pub fn dbg_opt_str(o: &Option<String>) -> (r: String)
    ensures
        r@ == spec_dbg_opt_str(*o),
{
    match o {
        Option::None => "None".to_owned(),
        Option::Some(s) => "Some(\"".to_owned().concat(s.as_str()).concat("\")"),
    }
}

/// Renders exactly [`spec_dbg_opt_u64`].
pub fn dbg_opt_u64(o: &Option<u64>) -> (r: String)
    ensures
        r@ == spec_dbg_opt_u64(*o),
{
    match o {
        Option::None => "None".to_owned(),
        Option::Some(n) => "Some(".to_owned().concat(u64_to_string(*n).as_str()).concat(")"),
    }
}

} // verus!
