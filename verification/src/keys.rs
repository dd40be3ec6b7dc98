//! Blob keys: the strings under which content is stored.
//!
//! A key is a prefix that names the kind of content, followed by the
//! content's identifier in 64 lower-case hexadecimal digits, upper half
//! first.

use vstd::prelude::*;
use vstd::string::*;
use crate::ids::ContentId;

verus! {

/// The hexadecimal digit for `d`.
pub open spec fn hex_char(d: nat) -> char {
    if d == 0 {
        '0'
    } else if d == 1 {
        '1'
    } else if d == 2 {
        '2'
    } else if d == 3 {
        '3'
    } else if d == 4 {
        '4'
    } else if d == 5 {
        '5'
    } else if d == 6 {
        '6'
    } else if d == 7 {
        '7'
    } else if d == 8 {
        '8'
    } else if d == 9 {
        '9'
    } else if d == 10 {
        'a'
    } else if d == 11 {
        'b'
    } else if d == 12 {
        'c'
    } else if d == 13 {
        'd'
    } else if d == 14 {
        'e'
    } else {
        'f'
    }
}

/// The last `n` hexadecimal digits of `x`, most significant first.
pub open spec fn hex_digits(x: nat, n: nat) -> Seq<char>
    decreases n,
{
    if n == 0 {
        Seq::empty()
    } else {
        hex_digits(x / 16, (n - 1) as nat).push(hex_char(x % 16))
    }
}

/// The identifier in 64 hexadecimal digits.
pub open spec fn hex_of(id: ContentId) -> Seq<char> {
    hex_digits(id.hi as nat, 32) + hex_digits(id.lo as nat, 32)
}

/// The key of the content `id` of the kind that `prefix` names.
pub open spec fn key_for(prefix: Seq<char>, id: ContentId) -> Seq<char> {
    prefix + hex_of(id)
}

fn hex_str(d: u8) -> (s: &'static str)
    requires
        d < 16,
    ensures
        s@ == seq![hex_char(d as nat)],
{
    proof {
        reveal_strlit("0");
        reveal_strlit("1");
        reveal_strlit("2");
        reveal_strlit("3");
        reveal_strlit("4");
        reveal_strlit("5");
        reveal_strlit("6");
        reveal_strlit("7");
        reveal_strlit("8");
        reveal_strlit("9");
        reveal_strlit("a");
        reveal_strlit("b");
        reveal_strlit("c");
        reveal_strlit("d");
        reveal_strlit("e");
        reveal_strlit("f");
    }
    let s = if d == 0 {
        "0"
    } else if d == 1 {
        "1"
    } else if d == 2 {
        "2"
    } else if d == 3 {
        "3"
    } else if d == 4 {
        "4"
    } else if d == 5 {
        "5"
    } else if d == 6 {
        "6"
    } else if d == 7 {
        "7"
    } else if d == 8 {
        "8"
    } else if d == 9 {
        "9"
    } else if d == 10 {
        "a"
    } else if d == 11 {
        "b"
    } else if d == 12 {
        "c"
    } else if d == 13 {
        "d"
    } else if d == 14 {
        "e"
    } else {
        "f"
    };
    assert(s@ =~= seq![hex_char(d as nat)]);
    s
}

/// Appends the last `n` hexadecimal digits of `x` to `s`.
fn push_hex(s: &mut String, x: u128, n: u8)
    ensures
        final(s)@ == old(s)@ + hex_digits(x as nat, n as nat),
    decreases n,
{
    if n == 0 {
        assert(s@ =~= old(s)@ + hex_digits(x as nat, 0));
    } else {
        push_hex(s, x / 16, n - 1);
        let d: u8 = (x % 16) as u8;
        s.append(hex_str(d));
        assert(s@ =~= old(s)@ + hex_digits(x as nat, n as nat));
    }
}

/// The key of the content `id` of the kind that `prefix` names.
pub fn blob_key(prefix: &str, id: ContentId) -> (key: String)
    ensures
        key@ == key_for(prefix@, id),
{
    let mut key = String::from_str(prefix);
    push_hex(&mut key, id.hi, 32);
    push_hex(&mut key, id.lo, 32);
    assert(key@ =~= key_for(prefix@, id));
    key
}

/// A digit is told from every other digit.
proof fn lemma_hex_char_injective(a: nat, b: nat)
    requires
        a < 16,
        b < 16,
        hex_char(a) == hex_char(b),
    ensures
        a == b,
{
}

/// Numbers below 16^n with the same `n` digits are the same number.
proof fn lemma_hex_digits_injective(x: nat, y: nat, n: nat)
    requires
        hex_digits(x, n) == hex_digits(y, n),
        x < pow16(n),
        y < pow16(n),
    ensures
        x == y,
    decreases n,
{
    if n > 0 {
        let a = hex_digits(x / 16, (n - 1) as nat);
        let b = hex_digits(y / 16, (n - 1) as nat);
        assert(a.push(hex_char(x % 16)) == b.push(hex_char(y % 16)));
        lemma_hex_digits_len(x / 16, (n - 1) as nat);
        lemma_hex_digits_len(y / 16, (n - 1) as nat);
        assert(a =~= a.push(hex_char(x % 16)).drop_last());
        assert(b =~= b.push(hex_char(y % 16)).drop_last());
        assert(hex_char(x % 16) == a.push(hex_char(x % 16)).last());
        assert(hex_char(y % 16) == b.push(hex_char(y % 16)).last());
        lemma_hex_char_injective(x % 16, y % 16);
        lemma_hex_digits_injective(x / 16, y / 16, (n - 1) as nat);
    }
}

/// 16 to the power `n`.
pub open spec fn pow16(n: nat) -> nat
    decreases n,
{
    if n == 0 {
        1
    } else {
        16 * pow16((n - 1) as nat)
    }
}

proof fn lemma_hex_digits_len(x: nat, n: nat)
    ensures
        hex_digits(x, n).len() == n,
    decreases n,
{
    if n > 0 {
        lemma_hex_digits_len(x / 16, (n - 1) as nat);
    }
}

proof fn lemma_u128_below_pow16(x: u128)
    ensures
        (x as nat) < pow16(32),
{
    assert(pow16(32) == 0x1_0000_0000_0000_0000_0000_0000_0000_0000nat) by {
        reveal_with_fuel(pow16, 33);
    }
}

/// Different identifiers have different keys under one prefix.
pub proof fn law_keys_tell_identifiers_apart(prefix: Seq<char>, a: ContentId, b: ContentId)
    requires
        key_for(prefix, a) == key_for(prefix, b),
    ensures
        a == b,
{
    let ha = hex_of(a);
    let hb = hex_of(b);
    assert(ha =~= key_for(prefix, a).subrange(prefix.len() as int, key_for(prefix, a).len() as int));
    assert(hb =~= key_for(prefix, b).subrange(prefix.len() as int, key_for(prefix, b).len() as int));
    lemma_hex_digits_len(a.hi as nat, 32);
    lemma_hex_digits_len(a.lo as nat, 32);
    lemma_hex_digits_len(b.hi as nat, 32);
    lemma_hex_digits_len(b.lo as nat, 32);
    assert(hex_digits(a.hi as nat, 32) =~= ha.subrange(0, 32));
    assert(hex_digits(b.hi as nat, 32) =~= hb.subrange(0, 32));
    assert(hex_digits(a.lo as nat, 32) =~= ha.subrange(32, 64));
    assert(hex_digits(b.lo as nat, 32) =~= hb.subrange(32, 64));
    lemma_u128_below_pow16(a.hi);
    lemma_u128_below_pow16(a.lo);
    lemma_u128_below_pow16(b.hi);
    lemma_u128_below_pow16(b.lo);
    lemma_hex_digits_injective(a.hi as nat, b.hi as nat, 32);
    lemma_hex_digits_injective(a.lo as nat, b.lo as nat, 32);
}

} // verus!
