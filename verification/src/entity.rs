//! Wikidata entity ids (`Q42`, `P31`, `L7`) packed into one integer:
//! the id's number times four plus a code for its kind.

use vstd::prelude::*;
use crate::number::{
    all_digits, digit_value, digits_value, is_digit, parse_u64, spec_parse_u64,
};

verus! {

/// The code of an entity kind letter: items `Q`, properties `P`, lexemes `L`.
pub open spec fn kind_code(c: char) -> Option<u64> {
    if c == 'Q' {
        Some(0)
    } else if c == 'P' {
        Some(1)
    } else if c == 'L' {
        Some(2)
    } else {
        None
    }
}

/// The packed integer of an entity of kind `kind` whose number is written
/// as `number`, when the letter is a kind, the number parses as a `u64`,
/// and the packed value fits in 64 bits.
pub open spec fn spec_pack(kind: char, number: Seq<char>) -> Option<u64> {
    match (kind_code(kind), spec_parse_u64(number)) {
        (Some(k), Some(v)) => if v * 4 + k <= u64::MAX {
            Some((v * 4 + k) as u64)
        } else {
            None
        },
        _ => None,
    }
}

/// Packs the kind letter `kind` and the number written as `number`.
pub fn pack(kind: char, number: &str) -> (r: Option<u64>)
    ensures
        r == spec_pack(kind, number@),
{
    let k: u64 = if kind == 'Q' {
        0
    } else if kind == 'P' {
        1
    } else if kind == 'L' {
        2
    } else {
        return None;
    };
    match parse_u64(number) {
        None => None,
        Some(v) => {
            if v <= (u64::MAX - k) / 4 {
                proof {
                    assert(v * 4 + k <= u64::MAX) by (nonlinear_arith)
                        requires
                            v <= (u64::MAX - k) / 4,
                            k <= 2,
                    ;
                }
                Some(v * 4 + k)
            } else {
                proof {
                    assert(v * 4 + k > u64::MAX) by (nonlinear_arith)
                        requires
                            v > (u64::MAX - k) / 4,
                            k <= 2,
                    ;
                }
                None
            }
        },
    }
}

/// Two packed ids are equal only when their kinds and their numbers are.
pub proof fn lemma_pack_injective(k1: char, n1: Seq<char>, k2: char, n2: Seq<char>)
    requires
        spec_pack(k1, n1) is Some,
        spec_pack(k1, n1) == spec_pack(k2, n2),
    ensures
        kind_code(k1) == kind_code(k2),
        spec_parse_u64(n1) == spec_parse_u64(n2),
{
    let a = kind_code(k1).unwrap();
    let b = kind_code(k2).unwrap();
    let v = spec_parse_u64(n1).unwrap();
    let w = spec_parse_u64(n2).unwrap();
    assert(a == b && v == w) by (nonlinear_arith)
        requires
            v * 4 + a == w * 4 + b,
            a <= 2,
            b <= 2,
    ;
}

/// The packed integer gives back the number (divide by four) and the kind
/// code (the remainder).
pub proof fn law_pack_decodes(kind: char, number: Seq<char>)
    requires
        spec_pack(kind, number) is Some,
    ensures
        spec_pack(kind, number).unwrap() / 4 == spec_parse_u64(number).unwrap(),
        spec_pack(kind, number).unwrap() % 4 == kind_code(kind).unwrap(),
{
    let k = kind_code(kind).unwrap();
    let v = spec_parse_u64(number).unwrap();
    assert((v * 4 + k) / 4 == v && (v * 4 + k) % 4 == k) by (nonlinear_arith)
        requires
            k <= 2,
    ;
}

/// Ten to the power `n`.
pub open spec fn pow10(n: nat) -> nat
    decreases n,
{
    if n == 0 {
        1
    } else {
        10 * pow10((n - 1) as nat)
    }
}

/// A number written in decimal as `std` writes it: digits only, and no
/// leading zero unless the number is zero.
pub open spec fn canonical_digits(s: Seq<char>) -> bool {
    &&& s.len() > 0
    &&& all_digits(s)
    &&& (s.len() == 1 || s[0] != '0')
}

proof fn lemma_pow10_monotone(a: nat, b: nat)
    requires
        a <= b,
    ensures
        pow10(a) <= pow10(b),
    decreases b,
{
    if a < b {
        lemma_pow10_monotone(a, (b - 1) as nat);
    }
}

proof fn lemma_digits_upper(s: Seq<char>)
    requires
        all_digits(s),
    ensures
        digits_value(s) < pow10(s.len()),
    decreases s.len(),
{
    if s.len() > 0 {
        let init = s.drop_last();
        assert(all_digits(init)) by {
            assert forall|i: int| 0 <= i < init.len() implies #[trigger] is_digit(init[i]) by {
                assert(init[i] == s[i]);
            }
        }
        lemma_digits_upper(init);
        assert(is_digit(s[s.len() - 1]));
        let d = digit_value(s.last());
        let p = pow10(init.len());
        let v = digits_value(init);
        assert(v * 10 + d < 10 * p) by (nonlinear_arith)
            requires
                v < p,
                d <= 9,
        ;
    }
}

proof fn lemma_digits_lower(s: Seq<char>)
    requires
        all_digits(s),
        s.len() > 0,
        s[0] != '0',
    ensures
        digits_value(s) >= pow10((s.len() - 1) as nat),
    decreases s.len(),
{
    if s.len() == 1 {
        assert(is_digit(s[0]));
        assert(s.drop_last().len() == 0);
    } else {
        let init = s.drop_last();
        assert(all_digits(init)) by {
            assert forall|i: int| 0 <= i < init.len() implies #[trigger] is_digit(init[i]) by {
                assert(init[i] == s[i]);
            }
        }
        assert(init[0] == s[0]);
        lemma_digits_lower(init);
        let v = digits_value(init);
        let p = pow10((init.len() - 1) as nat);
        let d = digit_value(s.last());
        assert(v * 10 + d >= 10 * p) by (nonlinear_arith)
            requires
                v >= p,
        ;
    }
}

/// Two decimal numbers written as `std` writes them have the same value
/// only when they are the same text.
pub proof fn lemma_canonical_digits_injective(a: Seq<char>, b: Seq<char>)
    requires
        canonical_digits(a),
        canonical_digits(b),
        digits_value(a) == digits_value(b),
    ensures
        a == b,
    decreases a.len(),
{
    lemma_digits_upper(a);
    lemma_digits_upper(b);
    if a.len() < b.len() {
        lemma_digits_lower(b);
        lemma_pow10_monotone(a.len(), (b.len() - 1) as nat);
    } else if b.len() < a.len() {
        lemma_digits_lower(a);
        lemma_pow10_monotone(b.len(), (a.len() - 1) as nat);
    } else {
        let ia = a.drop_last();
        let ib = b.drop_last();
        assert(is_digit(a[a.len() - 1]));
        assert(is_digit(b[b.len() - 1]));
        let da = digit_value(a.last());
        let db = digit_value(b.last());
        let va = digits_value(ia);
        let vb = digits_value(ib);
        assert(va == vb && da == db) by (nonlinear_arith)
            requires
                va * 10 + da == vb * 10 + db,
                da <= 9,
                db <= 9,
        ;
        assert(a.last() == b.last());
        if a.len() > 1 {
            assert(all_digits(ia)) by {
                assert forall|i: int| 0 <= i < ia.len() implies #[trigger] is_digit(ia[i]) by {
                    assert(ia[i] == a[i]);
                }
            }
            assert(all_digits(ib)) by {
                assert forall|i: int| 0 <= i < ib.len() implies #[trigger] is_digit(ib[i]) by {
                    assert(ib[i] == b[i]);
                }
            }
            assert(ia[0] == a[0]);
            assert(ib[0] == b[0]);
            lemma_canonical_digits_injective(ia, ib);
        }
        assert(a =~= ia.push(a.last()));
        assert(b =~= ib.push(b.last()));
    }
}

} // verus!
