//! Small arithmetic and character helpers shared by the protocol modules.

use crate::text::{decimal_digits, push_decimal};
use vstd::prelude::*;

verus! {

/// Number of chunks of `b` items needed to hold `a` items: `a / b`, rounded up.
pub open spec fn spec_div_up(a: int, b: int) -> int {
    (a + b - 1) / b
}

/// Divides `a` by `b`, rounding up.
pub fn div_up(a: usize, b: usize) -> (n: usize)
    requires
        b > 0,
    ensures
        n == spec_div_up(a as int, b as int),
        n * b >= a,
        a > 0 ==> (n - 1) * b < a,
        a == 0 ==> n == 0,
{
    let q: usize = a / b;
    let r: usize = a % b;
    proof {
        lemma_div_up(a as int, b as int);
    }
    if r == 0 {
        q
    } else {
        q + 1
    }
}

/// Relates the rounded-up quotient to the ordinary quotient and remainder.
pub proof fn lemma_div_up(a: int, b: int)
    requires
        a >= 0,
        b > 0,
    ensures
        spec_div_up(a, b) == if a % b == 0 { a / b } else { a / b + 1 },
        spec_div_up(a, b) * b >= a,
        a > 0 ==> (spec_div_up(a, b) - 1) * b < a,
        a == 0 ==> spec_div_up(a, b) == 0,
        spec_div_up(a, b) <= a,
{
    let q = a / b;
    let r = a % b;
    assert(a == b * q + r) by {
        vstd::arithmetic::div_mod::lemma_fundamental_div_mod(a, b);
    }
    assert(0 <= r < b);
    if r == 0 {
        assert(a + b - 1 == b * q + (b - 1));
        vstd::arithmetic::div_mod::lemma_fundamental_div_mod_converse(a + b - 1, b, q, b - 1);
    } else {
        assert(a + b - 1 == b * (q + 1) + (r - 1)) by (nonlinear_arith)
            requires
                a == b * q + r,
        ;
        vstd::arithmetic::div_mod::lemma_fundamental_div_mod_converse(a + b - 1, b, q + 1, r - 1);
    }
    let n = spec_div_up(a, b);
    assert(n * b >= a && (a > 0 ==> (n - 1) * b < a) && n <= a) by (nonlinear_arith)
        requires
            a == b * q + r,
            0 <= r < b,
            a >= 0,
            b > 0,
            n == if r == 0 { q } else { q + 1 },
    ;
}

/// The calculator's code for a character outside the range that is kept
/// as it stands: the upper half of Latin-1 maps to itself, a few Greek
/// letters, arrows and blocks have codes of their own, and any other
/// character gives 0.
pub open spec fn special_char_code(code: u32) -> u8 {
    if 0xa0 <= code <= 0xff {
        code as u8
    } else if code == 0x2592 {
        // medium shade
        0x7f
    } else if code == 0x25bd {
        // white down-pointing triangle
        0x82
    } else if code == 0x3a3 {
        // capital sigma
        0x85
    } else if code == 0x25b6 {
        // black right-pointing triangle
        0x86
    } else if code == 0x3c0 {
        // pi
        0x87
    } else if code == 0x1d6fc {
        // mathematical italic alpha
        0x8c
    } else if code == 0x2192 {
        // rightwards arrow
        0x8d
    } else if code == 0x2190 {
        // leftwards arrow
        0x8e
    } else if code == 0x2193 {
        // downwards arrow
        0x8f
    } else if code == 0x2191 {
        // upwards arrow
        0x90
    } else if code == 0x3b3 {
        // gamma
        0x91
    } else if code == 0x3b4 {
        // delta
        0x92
    } else if code == 0x3b5 {
        // epsilon
        0x93
    } else if code == 0x3b7 {
        // eta
        0x94
    } else if code == 0x3b8 {
        // theta
        0x95
    } else if code == 0x3bb {
        // lambda
        0x96
    } else if code == 0x3c1 {
        // rho
        0x97
    } else if code == 0x3c3 {
        // sigma
        0x98
    } else if code == 0x3c4 {
        // tau
        0x99
    } else if code == 0x3c9 {
        // omega
        0x9a
    } else if code == 0x394 {
        // capital delta
        0x9b
    } else if code == 0x3a0 {
        // capital pi
        0x9c
    } else if code == 0x3a9 {
        // capital omega
        0x9d
    } else if code == 0x25a0 {
        // black square
        0x9e
    } else {
        0
    }
}

/// The calculator's single-byte code for a character. The character's low
/// byte decides first: where it is below 127 it is the code, whatever the
/// rest of the code point holds, so that `A` gives `0x41` and U+221A, whose
/// low byte is `0x1A`, gives `0x1A`.
pub open spec fn hp_char_code(c: char) -> u8 {
    let code = c as u32;
    if code % 256 < 127 {
        (code % 256) as u8
    } else {
        special_char_code(code)
    }
}

/// Converts a character to the calculator's single-byte code for it.
pub fn char_to_hp_char(c: char) -> (b: u8)
    ensures
        b == hp_char_code(c),
{
    let code: u32 = c as u32;
    let low: u32 = code % 256;
    if low < 127 {
        return low as u8;
    }
    if 0xa0 <= code && code <= 0xff {
        code as u8
    } else if code == 0x2592 {
        // medium shade
        0x7f
    } else if code == 0x25bd {
        // white down-pointing triangle
        0x82
    } else if code == 0x3a3 {
        // capital sigma
        0x85
    } else if code == 0x25b6 {
        // black right-pointing triangle
        0x86
    } else if code == 0x3c0 {
        // pi
        0x87
    } else if code == 0x1d6fc {
        // mathematical italic alpha
        0x8c
    } else if code == 0x2192 {
        // rightwards arrow
        0x8d
    } else if code == 0x2190 {
        // leftwards arrow
        0x8e
    } else if code == 0x2193 {
        // downwards arrow
        0x8f
    } else if code == 0x2191 {
        // upwards arrow
        0x90
    } else if code == 0x3b3 {
        // gamma
        0x91
    } else if code == 0x3b4 {
        // delta
        0x92
    } else if code == 0x3b5 {
        // epsilon
        0x93
    } else if code == 0x3b7 {
        // eta
        0x94
    } else if code == 0x3b8 {
        // theta
        0x95
    } else if code == 0x3bb {
        // lambda
        0x96
    } else if code == 0x3c1 {
        // rho
        0x97
    } else if code == 0x3c3 {
        // sigma
        0x98
    } else if code == 0x3c4 {
        // tau
        0x99
    } else if code == 0x3c9 {
        // omega
        0x9a
    } else if code == 0x394 {
        // capital delta
        0x9b
    } else if code == 0x3a0 {
        // capital pi
        0x9c
    } else if code == 0x3a9 {
        // capital omega
        0x9d
    } else if code == 0x25a0 {
        // black square
        0x9e
    } else {
        0
    }
}

/// The sum of the bytes of a sequence.
pub open spec fn byte_sum(s: Seq<u8>) -> nat
    decreases s.len(),
{
    if s.len() == 0 {
        0
    } else {
        byte_sum(s.drop_last()) + s.last() as nat
    }
}

/// The sum of a sequence with one more byte.
pub proof fn lemma_byte_sum_push(s: Seq<u8>, b: u8)
    ensures
        byte_sum(s.push(b)) == byte_sum(s) + b,
{
    assert(s.push(b).drop_last() =~= s);
}

/// The name to try for an output file after `counter` names were found
/// taken: the path itself first, then the path with `.1`, `.2` and so on
/// behind it.
pub open spec fn spec_path_candidate(path: Seq<char>, counter: nat) -> Seq<char> {
    if counter == 0 {
        path
    } else {
        path + seq!['.'] + decimal_digits(counter)
    }
}

/// The name to try for an output file after `counter` names were found
/// taken.
pub fn path_candidate(path: &str, counter: u32) -> (name: String)
    ensures
        name@ == spec_path_candidate(path@, counter as nat),
{
    let mut name = String::new();
    name.push_str(path);
    if counter != 0 {
        name.push('.');
        push_decimal(&mut name, counter as u64);
    }
    assert(name@ =~= spec_path_candidate(path@, counter as nat));
    name
}

/// `is_taken` was asked about the name `name` and gave `answer`.
pub open spec fn answered<F: Fn(&str) -> bool>(is_taken: F, name: Seq<char>, answer: bool) -> bool {
    exists|asked: &str| asked@ == name && call_ensures(is_taken, (asked,), answer)
}

/// Finds a name for an output file that is not taken: the first of the
/// candidates for `path` of which `is_taken` says that no file has it. Each
/// candidate is asked about once, in order, and none after the one that is
/// returned. `None` where `is_taken` said of every candidate that it is
/// taken.
pub fn get_unique_path<F: Fn(&str) -> bool>(path: &str, is_taken: F) -> (found: Option<String>)
    requires
        forall|name: &str| call_requires(is_taken, (name,)),
    ensures
        match found {
            Some(name) => exists|n: nat|
                {
                    &&& n <= u32::MAX
                    &&& name@ == spec_path_candidate(path@, n)
                    &&& answered(is_taken, spec_path_candidate(path@, n), false)
                    &&& forall|m: nat|
                        m < n ==> answered(is_taken, #[trigger] spec_path_candidate(path@, m), true)
                },
            None => forall|m: nat|
                m <= u32::MAX ==> answered(is_taken, #[trigger] spec_path_candidate(path@, m), true),
        },
{
    let mut counter: u32 = 0;
    loop
        invariant
            forall|name: &str| call_requires(is_taken, (name,)),
            forall|m: nat|
                m < counter ==> answered(is_taken, #[trigger] spec_path_candidate(path@, m), true),
        decreases u32::MAX - counter,
    {
        let name = path_candidate(path, counter);
        let asked = name.as_str();
        let taken = is_taken(asked);
        assert(answered(is_taken, spec_path_candidate(path@, counter as nat), taken));
        if !taken {
            return Some(name);
        }
        if counter == u32::MAX {
            return None;
        }
        counter += 1;
    }
}

} // verus!
