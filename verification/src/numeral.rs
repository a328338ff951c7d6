use vstd::arithmetic::div_mod::{lemma_fundamental_div_mod, lemma_fundamental_div_mod_converse};
use vstd::prelude::*;

verus! {

/// The character for one decimal digit value.
pub open spec fn digit_char(d: int) -> char {
    if d == 0 {
        '0'
    } else if d == 1 {
        '1'
    } else if d == 2 {
        '2'
    } else if d == 3 {
        '3'
    } else if d == 4 {
        '4'
    } else if d == 5 {
        '5'
    } else if d == 6 {
        '6'
    } else if d == 7 {
        '7'
    } else if d == 8 {
        '8'
    } else {
        '9'
    }
}

pub open spec fn is_dec_digit(c: char) -> bool {
    48 <= c as u32 <= 57
}

/// The numeric value of one decimal digit character.
pub open spec fn digit_val(c: char) -> int {
    c as u32 - 48
}

/// The canonical decimal representation of a natural number:
/// most significant digit first, no leading zeros.
pub open spec fn dec_rep(n: nat) -> Seq<char>
    decreases n,
{
    if n < 10 {
        seq![digit_char(n as int)]
    } else {
        dec_rep(n / 10).push(digit_char((n % 10) as int))
    }
}

/// The decimal representation of an integer: a minus sign before the
/// magnitude when negative.
pub open spec fn int_rep(i: int) -> Seq<char> {
    if i < 0 {
        seq!['-'] + dec_rep((-i) as nat)
    } else {
        dec_rep(i as nat)
    }
}

pub open spec fn all_dec_digits(s: Seq<char>) -> bool {
    forall|j: int| 0 <= j < s.len() ==> is_dec_digit(s[j])
}

/// The value of a digit string, most significant digit first.
pub open spec fn dec_val(s: Seq<char>) -> int
    decreases s.len(),
{
    if s.len() == 0 {
        0
    } else {
        dec_val(s.drop_last()) * 10 + digit_val(s.last())
    }
}

/// A digit string is canonical when it is non-empty and carries no
/// superfluous leading zero.
pub open spec fn canonical_dec(s: Seq<char>) -> bool {
    &&& s.len() >= 1
    &&& all_dec_digits(s)
    &&& (s.len() == 1 || s[0] != '0')
}

pub proof fn lemma_dec_rep_canonical(n: nat)
    ensures
        dec_rep(n).len() >= 1,
        canonical_dec(dec_rep(n)),
        (dec_rep(n)[0] == '0') <==> n == 0,
    decreases n,
{
    if n < 10 {
    } else {
        lemma_dec_rep_canonical(n / 10);
        let s = dec_rep(n / 10);
        let whole = dec_rep(n);
        assert(whole == s.push(digit_char((n % 10) as int)));
        assert(whole[0] == s[0]);
        assert(forall|j: int|
            0 <= j < whole.len() ==> is_dec_digit(
                #[trigger] whole[j],
            )) by {
            assert forall|j: int| 0 <= j < whole.len() implies is_dec_digit(#[trigger] whole[j]) by {
                if j < s.len() {
                    assert(whole[j] == s[j]);
                } else {
                    assert(whole[j] == digit_char((n % 10) as int));
                }
            }
        }
    }
}

pub proof fn lemma_dec_val_of_rep(n: nat)
    ensures
        dec_val(dec_rep(n)) == n,
    decreases n,
{
    if n < 10 {
        let s = dec_rep(n);
        assert(s.drop_last() =~= Seq::<char>::empty());
        assert(dec_val(Seq::<char>::empty()) == 0);
        assert(dec_val(s) == 0 * 10 + digit_val(digit_char(n as int)));
    } else {
        lemma_dec_val_of_rep(n / 10);
        let s = dec_rep(n / 10);
        let d = digit_char((n % 10) as int);
        assert(dec_rep(n) == s.push(d));
        assert(s.push(d).drop_last() =~= s);
        assert(s.push(d).last() == d);
        assert(digit_val(d) == n % 10);
        lemma_fundamental_div_mod(n as int, 10);
    }
}

proof fn lemma_char_eq(c1: char, c2: char)
    requires
        c1 as u32 == c2 as u32,
    ensures
        c1 == c2,
{
    vstd::utf8::char_u32_cast(c1, c1 as u32);
    vstd::utf8::char_u32_cast(c2, c1 as u32);
}

proof fn lemma_digit_char_of_val(c: char)
    requires
        is_dec_digit(c),
    ensures
        digit_char(digit_val(c)) == c,
{
    assert(digit_char(digit_val(c)) as u32 == c as u32);
    lemma_char_eq(digit_char(digit_val(c)), c);
}

/// A digit string that does not begin with zero has a positive value.
proof fn lemma_dec_val_pos(s: Seq<char>)
    requires
        all_dec_digits(s),
        s.len() >= 1,
        s[0] != '0',
    ensures
        dec_val(s) >= 1,
    decreases s.len(),
{
    if s.len() == 1 {
        assert(is_dec_digit(s[0]));
        assert(s[0] as u32 != 48) by {
            if s[0] as u32 == 48 {
                lemma_char_eq(s[0], '0');
            }
        }
        assert(s.drop_last() =~= Seq::<char>::empty());
        assert(dec_val(Seq::<char>::empty()) == 0);
        assert(dec_val(s) == 0 * 10 + digit_val(s.last()));
        assert(digit_val(s.last()) >= 1);
    } else {
        let init = s.drop_last();
        assert(all_dec_digits(init));
        assert(init[0] == s[0]);
        lemma_dec_val_pos(init);
        assert(is_dec_digit(s.last()));
    }
}

/// A canonical digit string is the canonical representation of its own
/// value.
pub proof fn lemma_dec_rep_of_val(s: Seq<char>)
    requires
        canonical_dec(s),
    ensures
        dec_val(s) >= 0,
        dec_rep(dec_val(s) as nat) == s,
    decreases s.len(),
{
    lemma_dec_val_nonneg(s);
    if s.len() == 1 {
        assert(is_dec_digit(s[0]));
        assert(s.drop_last() =~= Seq::<char>::empty());
        assert(dec_val(Seq::<char>::empty()) == 0);
        assert(dec_val(s) == digit_val(s[0]));
        lemma_digit_char_of_val(s[0]);
        assert(dec_rep(dec_val(s) as nat) =~= s);
    } else {
        let init = s.drop_last();
        let d = digit_val(s.last());
        assert(is_dec_digit(s.last()));
        assert(all_dec_digits(init));
        assert(init[0] == s[0]);
        assert(canonical_dec(init));
        lemma_dec_rep_of_val(init);
        lemma_dec_val_pos(init);
        let q = dec_val(init);
        let v = dec_val(s);
        assert(v == q * 10 + d);
        assert(v >= 10);
        lemma_fundamental_div_mod_converse(v, 10, q, d);
        assert(v / 10 == q && v % 10 == d);
        assert(dec_rep(v as nat) == dec_rep(q as nat).push(digit_char(d)));
        lemma_digit_char_of_val(s.last());
        assert(dec_rep(v as nat) =~= s);
    }
}

pub proof fn lemma_dec_val_nonneg(s: Seq<char>)
    requires
        all_dec_digits(s),
    ensures
        dec_val(s) >= 0,
    decreases s.len(),
{
    if s.len() > 0 {
        assert(all_dec_digits(s.drop_last()));
        lemma_dec_val_nonneg(s.drop_last());
        assert(is_dec_digit(s.last()));
    }
}

/// The value of a digit string grows with its prefixes.
pub proof fn lemma_dec_val_prefix_mono(s: Seq<char>, k1: int, k2: int)
    requires
        all_dec_digits(s),
        0 <= k1 <= k2 <= s.len(),
    ensures
        dec_val(s.subrange(0, k1)) <= dec_val(s.subrange(0, k2)),
    decreases k2 - k1,
{
    if k1 < k2 {
        lemma_dec_val_prefix_mono(s, k1, k2 - 1);
        let a = s.subrange(0, k2 - 1);
        let b = s.subrange(0, k2);
        assert(b.drop_last() =~= a);
        assert(all_dec_digits(a));
        lemma_dec_val_nonneg(a);
        assert(is_dec_digit(b.last()));
        assert(dec_val(b) == dec_val(a) * 10 + digit_val(b.last()));
    }
}

/// The parse of an unsigned decimal number: an optional leading plus sign,
/// then at least one digit, the value fitting the machine's word; nothing
/// otherwise.
pub open spec fn spec_parse_index(t: Seq<char>) -> Option<usize> {
    let d = if t.len() >= 1 && t[0] == '+' {
        t.drop_first()
    } else {
        t
    };
    if d.len() >= 1 && all_dec_digits(d) && dec_val(d) <= usize::MAX {
        Some(dec_val(d) as usize)
    } else {
        None
    }
}

/// Parses the characters of `s` in `[from, to)` as a decimal number.
pub fn parse_digits(s: &str, from: usize, to: usize) -> (r: Option<usize>)
    requires
        from <= to <= s@.len(),
    ensures
        ({
            let t = s@.subrange(from as int, to as int);
            match r {
                Some(v) => all_dec_digits(t) && t.len() >= 1 && v == dec_val(t),
                None => !(all_dec_digits(t) && t.len() >= 1 && dec_val(t) <= usize::MAX),
            }
        }),
{
    let ghost t = s@.subrange(from as int, to as int);
    if from == to {
        return None;
    }
    let mut acc: usize = 0;
    let mut i: usize = from;
    while i < to
        invariant
            from <= i <= to <= s@.len(),
            t == s@.subrange(from as int, to as int),
            all_dec_digits(t.subrange(0, i - from)),
            acc == dec_val(t.subrange(0, i - from)),
        decreases to - i,
    {
        let c = s.get_char(i);
        let cu = c as u32;
        proof {
            assert(t[i - from] == s@[i as int]);
            assert(t.subrange(0, i + 1 - from).drop_last() =~= t.subrange(0, i - from));
            assert(t.subrange(0, i + 1 - from).last() == t[i - from]);
        }
        if cu < 48 || cu > 57 {
            proof {
                assert(!is_dec_digit(t[i - from]));
                assert(!all_dec_digits(t));
            }
            return None;
        }
        let d = (cu - 48) as usize;
        let next = match acc.checked_mul(10) {
            Some(m) => m.checked_add(d),
            None => None,
        };
        acc = match next {
            Some(a) => a,
            None => {
                proof {
                    assert(dec_val(t.subrange(0, i + 1 - from)) == acc * 10 + digit_val(
                        t[i - from],
                    ));
                    assert(dec_val(t.subrange(0, i + 1 - from)) > usize::MAX);
                    if all_dec_digits(t) {
                        lemma_dec_val_prefix_mono(t, i + 1 - from, t.len() as int);
                        assert(t.subrange(0, t.len() as int) =~= t);
                        assert(dec_val(t) > usize::MAX);
                    }
                }
                return None;
            },
        };
        i = i + 1;
    }
    proof {
        assert(t.subrange(0, to - from) =~= t);
    }
    Some(acc)
}

/// Parses a whole string as a decimal row number.
pub fn parse_index(s: &str) -> (r: Option<usize>)
    ensures
        r == spec_parse_index(s@),
{
    let n = s.unicode_len();
    if n >= 1 && s.get_char(0) == '+' {
        let r = parse_digits(s, 1, n);
        proof {
            assert(s@.subrange(1, n as int) =~= s@.drop_first());
        }
        r
    } else {
        let r = parse_digits(s, 0, n);
        proof {
            assert(s@.subrange(0, n as int) =~= s@);
        }
        r
    }
}

/// One-character string for a decimal digit.
fn digit_str(d: u8) -> (r: &'static str)
    requires
        d < 10,
    ensures
        r@ == seq![digit_char(d as int)],
{
    proof {
        reveal_strlit("0");
        reveal_strlit("1");
        reveal_strlit("2");
        reveal_strlit("3");
        reveal_strlit("4");
        reveal_strlit("5");
        reveal_strlit("6");
        reveal_strlit("7");
        reveal_strlit("8");
        reveal_strlit("9");
    }
    let r: &'static str = match d {
        0 => "0",
        1 => "1",
        2 => "2",
        3 => "3",
        4 => "4",
        5 => "5",
        6 => "6",
        7 => "7",
        8 => "8",
        _ => "9",
    };
    proof {
        assert(r@ =~= seq![digit_char(d as int)]);
    }
    r
}

/// Renders an unsigned number in canonical decimal.
pub fn u64_to_string(n: u64) -> (s: String)
    ensures
        s@ == dec_rep(n as nat),
    decreases n,
{
    if n < 10 {
        String::from_str(digit_str(n as u8))
    } else {
        let q = u64_to_string(n / 10);
        let s = q.concat(digit_str((n % 10) as u8));
        proof {
            assert(s@ =~= dec_rep(n as nat));
        }
        s
    }
}

/// Renders a signed number in decimal, minus sign included.
pub fn i64_to_string(i: i64) -> (s: String)
    ensures
        s@ == int_rep(i as int),
{
    if i >= 0 {
        u64_to_string(i as u64)
    } else {
        let mag: u64 = if i == i64::MIN {
            9223372036854775808u64
        } else {
            (-i) as u64
        };
        proof {
            assert(mag == -(i as int));
        }
        let digits = u64_to_string(mag);
        let s = String::from_str("-").concat(digits.as_str());
        proof {
            reveal_strlit("-");
            assert(s@ =~= int_rep(i as int));
        }
        s
    }
}

} // verus!
