//! Display of game-state hashes.

use vstd::prelude::*;
use vstd::string::StrSliceExecFns;
use crate::text::push_str;

verus! {

/// The lowercase hexadecimal digit for `d` in `0..16`.
pub open spec fn hex_char(d: int) -> char {
    if d < 10 {
        ('0' as int + d) as char
    } else {
        ('a' as int + (d - 10)) as char
    }
}

/// The last `n` hexadecimal digits of `x`, most significant first, with
/// leading zeros.
pub open spec fn hex_digits(x: nat, n: nat) -> Seq<char>
    decreases n,
{
    if n == 0 {
        Seq::empty()
    } else {
        hex_digits(x / 16, (n - 1) as nat).push(hex_char((x % 16) as int))
    }
}

fn hex_string(x: u64, n: u32) -> (r: String)
    ensures
        r@ == hex_digits(x as nat, n as nat),
    decreases n,
{
    if n == 0 {
        return String::new();
    }
    let digits: &str = "0123456789abcdef";
    proof {
        reveal_strlit("0123456789abcdef");
    }
    let d = (x % 16) as usize;
    let last: &str = digits.substring_char(d, d + 1);
    proof {
        assert(last@ =~= seq![hex_char(d as int)]);
    }
    let mut r = hex_string(x / 16, n - 1);
    push_str(&mut r, last);
    r
}

/// A hash for display: the eight hexadecimal digits (lowercase, zero-padded)
/// of its upper 32 bits.
pub fn format_hash(hash: u64) -> (r: String)
    ensures
        r@ == hex_digits(hash as nat / 0x1_0000_0000, 8),
{
    let high: u64 = hash >> 32;
    assert(high == hash / 0x1_0000_0000) by (bit_vector)
        requires
            high == hash >> 32,
    ;
    hex_string(high, 8)
}

} // verus!

verus! {

/// A displayed hash is always eight lowercase hexadecimal digits.
pub proof fn law_hash_has_eight_hex_digits(hash: u64)
    ensures
        hex_digits(hash as nat / 0x1_0000_0000, 8).len() == 8,
        forall|i: int| 0 <= i < 8 ==> {
            let c = #[trigger] hex_digits(hash as nat / 0x1_0000_0000, 8)[i];
            ('0' <= c <= '9') || ('a' <= c <= 'f')
        },
{
    lemma_hex_digits(hash as nat / 0x1_0000_0000, 8);
}

proof fn lemma_hex_digits(x: nat, n: nat)
    ensures
        hex_digits(x, n).len() == n,
        forall|i: int| 0 <= i < n ==> {
            let c = #[trigger] hex_digits(x, n)[i];
            ('0' <= c <= '9') || ('a' <= c <= 'f')
        },
    decreases n,
{
    if n > 0 {
        lemma_hex_digits(x / 16, (n - 1) as nat);
        lemma_hex_char((x % 16) as int);
        let s = hex_digits(x, n);
        assert forall|i: int| 0 <= i < n implies {
            let c = #[trigger] s[i];
            ('0' <= c <= '9') || ('a' <= c <= 'f')
        } by {
            if i < n - 1 {
                assert(s[i] == hex_digits(x / 16, (n - 1) as nat)[i]);
            }
        }
    }
}

proof fn lemma_hex_char(d: int)
    requires
        0 <= d < 16,
    ensures
        ('0' <= hex_char(d) <= '9') || ('a' <= hex_char(d) <= 'f'),
{
    if d == 0 { assert(hex_char(d) == '0'); }
    else if d == 1 { assert(hex_char(d) == '1'); }
    else if d == 2 { assert(hex_char(d) == '2'); }
    else if d == 3 { assert(hex_char(d) == '3'); }
    else if d == 4 { assert(hex_char(d) == '4'); }
    else if d == 5 { assert(hex_char(d) == '5'); }
    else if d == 6 { assert(hex_char(d) == '6'); }
    else if d == 7 { assert(hex_char(d) == '7'); }
    else if d == 8 { assert(hex_char(d) == '8'); }
    else if d == 9 { assert(hex_char(d) == '9'); }
    else if d == 10 { assert(hex_char(d) == 'a'); }
    else if d == 11 { assert(hex_char(d) == 'b'); }
    else if d == 12 { assert(hex_char(d) == 'c'); }
    else if d == 13 { assert(hex_char(d) == 'd'); }
    else if d == 14 { assert(hex_char(d) == 'e'); }
    else { assert(hex_char(d) == 'f'); }
}

} // verus!
