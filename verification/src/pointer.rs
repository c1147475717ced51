//! Pointer paths: `/`-joined token strings addressing a location inside a
//! nested value. Array tokens are decimal indices or the append token `-`;
//! object tokens are member names, emitted verbatim.

use vstd::prelude::*;
use vstd::string::StringExecFns;

verus! {

pub open spec fn digit_char(d: nat) -> char {
    if d == 0 {
        '0'
    } else if d == 1 {
        '1'
    } else if d == 2 {
        '2'
    } else if d == 3 {
        '3'
    } else if d == 4 {
        '4'
    } else if d == 5 {
        '5'
    } else if d == 6 {
        '6'
    } else if d == 7 {
        '7'
    } else if d == 8 {
        '8'
    } else {
        '9'
    }
}

/// The decimal digits of `n`, most significant first.
pub open spec fn dec_str(n: nat) -> Seq<char>
    decreases n,
{
    if n < 10 {
        seq![digit_char(n)]
    } else {
        dec_str(n / 10).push(digit_char(n % 10))
    }
}

/// The token for a live array position. Positions are never negative when the
/// differ runs; the clamp only keeps the function total.
pub open spec fn index_token(t: int) -> Seq<char> {
    dec_str(if t < 0 { 0nat } else { t as nat })
}

/// `ptr` extended with one `/`-separated token.
pub open spec fn joined(ptr: Seq<char>, token: Seq<char>) -> Seq<char> {
    ptr.push('/') + token
}

fn append_digit(s: &mut String, d: u128)
    requires
        d < 10,
    ensures
        final(s)@ == old(s)@.push(digit_char(d as nat)),
{
    if d == 0 {
        s.append("0");
        proof {
            reveal_strlit("0");
            assert(s@ =~= old(s)@.push(digit_char(d as nat)));
        }
    } else if d == 1 {
        s.append("1");
        proof {
            reveal_strlit("1");
            assert(s@ =~= old(s)@.push(digit_char(d as nat)));
        }
    } else if d == 2 {
        s.append("2");
        proof {
            reveal_strlit("2");
            assert(s@ =~= old(s)@.push(digit_char(d as nat)));
        }
    } else if d == 3 {
        s.append("3");
        proof {
            reveal_strlit("3");
            assert(s@ =~= old(s)@.push(digit_char(d as nat)));
        }
    } else if d == 4 {
        s.append("4");
        proof {
            reveal_strlit("4");
            assert(s@ =~= old(s)@.push(digit_char(d as nat)));
        }
    } else if d == 5 {
        s.append("5");
        proof {
            reveal_strlit("5");
            assert(s@ =~= old(s)@.push(digit_char(d as nat)));
        }
    } else if d == 6 {
        s.append("6");
        proof {
            reveal_strlit("6");
            assert(s@ =~= old(s)@.push(digit_char(d as nat)));
        }
    } else if d == 7 {
        s.append("7");
        proof {
            reveal_strlit("7");
            assert(s@ =~= old(s)@.push(digit_char(d as nat)));
        }
    } else if d == 8 {
        s.append("8");
        proof {
            reveal_strlit("8");
            assert(s@ =~= old(s)@.push(digit_char(d as nat)));
        }
    } else {
        s.append("9");
        proof {
            reveal_strlit("9");
            assert(s@ =~= old(s)@.push(digit_char(d as nat)));
        }
    }
}

fn append_dec(s: &mut String, n: u128)
    ensures
        final(s)@ == old(s)@ + dec_str(n as nat),
    decreases n,
{
    if n < 10 {
        append_digit(s, n);
        proof {
            assert(s@ =~= old(s)@ + dec_str(n as nat));
        }
    } else {
        append_dec(s, n / 10);
        append_digit(s, n % 10);
        proof {
            assert(s@ =~= old(s)@ + dec_str(n as nat));
        }
    }
}

/// `ptr` extended with the member name `key`.
pub fn key_path(ptr: &str, key: &str) -> (p: String)
    ensures
        p@ == joined(ptr@, key@),
{
    let mut s = ptr.to_owned();
    s.append("/");
    s.append(key);
    proof {
        reveal_strlit("/");
        assert(s@ =~= joined(ptr@, key@));
    }
    s
}

/// `ptr` extended with the decimal token for position `t`.
pub fn index_path(ptr: &str, t: i128) -> (p: String)
    ensures
        p@ == joined(ptr@, index_token(t as int)),
{
    let mut s = ptr.to_owned();
    s.append("/");
    let mag: u128 = if t < 0 {
        0
    } else {
        t as u128
    };
    append_dec(&mut s, mag);
    proof {
        reveal_strlit("/");
        assert(s@ =~= joined(ptr@, index_token(t as int)));
    }
    s
}

} // verus!
