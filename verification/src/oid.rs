//! Store-issued identifiers: opaque, string-renderable handles of 24
//! hexadecimal characters.
//!
//! The store generates identifiers from an internal counter; distinct
//! counters yield distinct identifiers, which keeps active identifiers
//! unique.

use vstd::prelude::*;
use vstd::string::StrSliceExecFns;
use vstd::string::StringExecFns;

verus! {

pub open spec fn is_hex_digit(c: char) -> bool {
    ('0' <= c && c <= '9') || ('a' <= c && c <= 'f') || ('A' <= c && c <= 'F')
}

/// A well-formed identifier: exactly 24 hexadecimal characters.
pub open spec fn is_oid(s: Seq<char>) -> bool {
    s.len() == 24 && (forall|i: int| 0 <= i < 24 ==> is_hex_digit(#[trigger] s[i]))
}

/// Whether `id` is a well-formed identifier.
pub fn oid_valid(id: &str) -> (r: bool)
    ensures
        r == is_oid(id@),
{
    let len = id.unicode_len();
    if len != 24 {
        return false;
    }
    let mut i: usize = 0;
    while i < 24
        invariant
            0 <= i <= 24,
            id@.len() == 24,
            forall|k: int| 0 <= k < i ==> is_hex_digit(#[trigger] id@[k]),
        decreases 24 - i,
    {
        let c = id.get_char(i);
        let ok = ('0' <= c && c <= '9') || ('a' <= c && c <= 'f') || ('A' <= c && c <= 'F');
        if !ok {
            return false;
        }
        i = i + 1;
    }
    true
}

/// The lower-case hexadecimal digit for a value below 16.
pub open spec fn hex_char(x: u64) -> char {
    if x == 0 {
        '0'
    } else if x == 1 {
        '1'
    } else if x == 2 {
        '2'
    } else if x == 3 {
        '3'
    } else if x == 4 {
        '4'
    } else if x == 5 {
        '5'
    } else if x == 6 {
        '6'
    } else if x == 7 {
        '7'
    } else if x == 8 {
        '8'
    } else if x == 9 {
        '9'
    } else if x == 10 {
        'a'
    } else if x == 11 {
        'b'
    } else if x == 12 {
        'c'
    } else if x == 13 {
        'd'
    } else if x == 14 {
        'e'
    } else {
        'f'
    }
}

/// The hexadecimal digit of `n` at position `i` of the identifier, for
/// positions 8 to 23 (the first 8 characters are zero padding).
pub open spec fn nibble(n: u64, i: int) -> u64 {
    (n >> (((23 - i) * 4) as u64)) & 0xf
}

/// The identifier issued for counter value `n`: 8 zero characters followed
/// by the 16 hexadecimal digits of `n`.
pub open spec fn oid_of(n: u64) -> Seq<char> {
    Seq::new(24, |i: int| if i < 8 { '0' } else { hex_char(nibble(n, i)) })
}

proof fn lemma_nibble_bound(n: u64, s: u64)
    ensures
        (n >> s) & 0xf < 16,
{
    assert((n >> s) & 0xf < 16) by (bit_vector);
}

/// Every issued identifier is well formed.
pub proof fn lemma_oid_of_valid(n: u64)
    ensures
        is_oid(oid_of(n)),
{
    assert forall|i: int| 0 <= i < 24 implies is_hex_digit(#[trigger] oid_of(n)[i]) by {
        if i >= 8 {
            lemma_nibble_bound(n, (((23 - i) * 4) as u64));
        }
    }
}

/// Distinct counter values yield distinct identifiers.
pub proof fn lemma_oid_of_injective(a: u64, b: u64)
    requires
        oid_of(a) == oid_of(b),
    ensures
        a == b,
{
    assert forall|i: int| 8 <= i < 24 implies nibble(a, i) == nibble(b, i) by {
        assert(oid_of(a)[i] == hex_char(nibble(a, i)));
        assert(oid_of(b)[i] == hex_char(nibble(b, i)));
        assert(oid_of(a)[i] == oid_of(b)[i]);
        lemma_nibble_bound(a, (((23 - i) * 4) as u64));
        lemma_nibble_bound(b, (((23 - i) * 4) as u64));
        assert(nibble(a, i) < 16 && nibble(b, i) < 16);
        assert(hex_char(nibble(a, i)) == hex_char(nibble(b, i)));
    }
    assert(nibble(a, 8) == (a >> 60) & 0xf && nibble(b, 8) == (b >> 60) & 0xf);
    assert(nibble(a, 9) == (a >> 56) & 0xf && nibble(b, 9) == (b >> 56) & 0xf);
    assert(nibble(a, 10) == (a >> 52) & 0xf && nibble(b, 10) == (b >> 52) & 0xf);
    assert(nibble(a, 11) == (a >> 48) & 0xf && nibble(b, 11) == (b >> 48) & 0xf);
    assert(nibble(a, 12) == (a >> 44) & 0xf && nibble(b, 12) == (b >> 44) & 0xf);
    assert(nibble(a, 13) == (a >> 40) & 0xf && nibble(b, 13) == (b >> 40) & 0xf);
    assert(nibble(a, 14) == (a >> 36) & 0xf && nibble(b, 14) == (b >> 36) & 0xf);
    assert(nibble(a, 15) == (a >> 32) & 0xf && nibble(b, 15) == (b >> 32) & 0xf);
    assert(nibble(a, 16) == (a >> 28) & 0xf && nibble(b, 16) == (b >> 28) & 0xf);
    assert(nibble(a, 17) == (a >> 24) & 0xf && nibble(b, 17) == (b >> 24) & 0xf);
    assert(nibble(a, 18) == (a >> 20) & 0xf && nibble(b, 18) == (b >> 20) & 0xf);
    assert(nibble(a, 19) == (a >> 16) & 0xf && nibble(b, 19) == (b >> 16) & 0xf);
    assert(nibble(a, 20) == (a >> 12) & 0xf && nibble(b, 20) == (b >> 12) & 0xf);
    assert(nibble(a, 21) == (a >> 8) & 0xf && nibble(b, 21) == (b >> 8) & 0xf);
    assert(nibble(a, 22) == (a >> 4) & 0xf && nibble(b, 22) == (b >> 4) & 0xf);
    assert(nibble(a, 23) == (a >> 0) & 0xf && nibble(b, 23) == (b >> 0) & 0xf);
    assert((((a >> 60) & 0xf == (b >> 60) & 0xf) && ((a >> 56) & 0xf == (b >> 56) & 0xf) && ((a
        >> 52) & 0xf == (b >> 52) & 0xf) && ((a >> 48) & 0xf == (b >> 48) & 0xf) && ((a >> 44) & 0xf
        == (b >> 44) & 0xf) && ((a >> 40) & 0xf == (b >> 40) & 0xf) && ((a >> 36) & 0xf == (b >> 36)
        & 0xf) && ((a >> 32) & 0xf == (b >> 32) & 0xf) && ((a >> 28) & 0xf == (b >> 28) & 0xf) && ((
    a >> 24) & 0xf == (b >> 24) & 0xf) && ((a >> 20) & 0xf == (b >> 20) & 0xf) && ((a >> 16) & 0xf
        == (b >> 16) & 0xf) && ((a >> 12) & 0xf == (b >> 12) & 0xf) && ((a >> 8) & 0xf == (b >> 8)
        & 0xf) && ((a >> 4) & 0xf == (b >> 4) & 0xf) && ((a >> 0) & 0xf == (b >> 0) & 0xf)) ==> a
        == b) by (bit_vector);
}

/// The one-character string for a hexadecimal digit.
fn hex_str(x: u64) -> (r: &'static str)
    requires
        x < 16,
    ensures
        r@ =~= seq![hex_char(x)],
{
    if x == 0 {
        proof {
            reveal_strlit("0");
        }
        "0"
    } else if x == 1 {
        proof {
            reveal_strlit("1");
        }
        "1"
    } else if x == 2 {
        proof {
            reveal_strlit("2");
        }
        "2"
    } else if x == 3 {
        proof {
            reveal_strlit("3");
        }
        "3"
    } else if x == 4 {
        proof {
            reveal_strlit("4");
        }
        "4"
    } else if x == 5 {
        proof {
            reveal_strlit("5");
        }
        "5"
    } else if x == 6 {
        proof {
            reveal_strlit("6");
        }
        "6"
    } else if x == 7 {
        proof {
            reveal_strlit("7");
        }
        "7"
    } else if x == 8 {
        proof {
            reveal_strlit("8");
        }
        "8"
    } else if x == 9 {
        proof {
            reveal_strlit("9");
        }
        "9"
    } else if x == 10 {
        proof {
            reveal_strlit("a");
        }
        "a"
    } else if x == 11 {
        proof {
            reveal_strlit("b");
        }
        "b"
    } else if x == 12 {
        proof {
            reveal_strlit("c");
        }
        "c"
    } else if x == 13 {
        proof {
            reveal_strlit("d");
        }
        "d"
    } else if x == 14 {
        proof {
            reveal_strlit("e");
        }
        "e"
    } else {
        proof {
            reveal_strlit("f");
        }
        "f"
    }
}

/// Renders the identifier issued for counter value `n`.
#[verifier::loop_isolation(false)]
pub fn fresh_oid(n: u64) -> (r: String)
    ensures
        r@ == oid_of(n),
{
    let mut s = String::new();
    proof {
        reveal_strlit("00000000");
    }
    s.append("00000000");
    let mut i: usize = 8;
    while i < 24
        invariant
            8 <= i <= 24,
            s@.len() == i,
            forall|k: int| 0 <= k < i ==> s@[k] == oid_of(n)[k],
        decreases 24 - i,
    {
        let shift: u64 = ((23 - i) * 4) as u64;
        let x: u64 = (n >> shift) & 0xf;
        proof {
            lemma_nibble_bound(n, shift);
        }
        let digit = hex_str(x);
        s.append(digit);
        i = i + 1;
    }
    proof {
        assert(s@ =~= oid_of(n));
    }
    s
}

} // verus!
