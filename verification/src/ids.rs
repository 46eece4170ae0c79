//! Composition of the hierarchical content identifiers: the section grouping
//! key `"{part}.{section}"` and the paragraph key
//! `"{part}.{section}({paragraph})"`. The keys are built from the decimal
//! rendering of the integer fields, so two different (part, section) pairs
//! can never collide.

use vstd::prelude::*;

verus! {

use vstd::string::StringExecFns;

/// The character for a single decimal digit.
pub open spec fn digit_char(d: int) -> char {
    if d == 0 {
        '0'
    } else if d == 1 {
        '1'
    } else if d == 2 {
        '2'
    } else if d == 3 {
        '3'
    } else if d == 4 {
        '4'
    } else if d == 5 {
        '5'
    } else if d == 6 {
        '6'
    } else if d == 7 {
        '7'
    } else if d == 8 {
        '8'
    } else {
        '9'
    }
}

/// The decimal digits of `n`, most significant first.
pub open spec fn dec_digits(n: nat) -> Seq<char>
    decreases n,
{
    if n < 10 {
        seq![digit_char(n as int)]
    } else {
        dec_digits(n / 10).push(digit_char((n % 10) as int))
    }
}

/// The decimal rendering of a signed integer, with a leading `-` when
/// negative.
pub open spec fn dec_int(n: int) -> Seq<char> {
    if n < 0 {
        seq!['-'] + dec_digits((-n) as nat)
    } else {
        dec_digits(n as nat)
    }
}

/// The section grouping key `"{part}.{section}"`.
pub open spec fn spec_section_key(part: int, section: int) -> Seq<char> {
    dec_int(part) + seq!['.'] + dec_int(section)
}

/// The paragraph content identifier `"{part}.{section}({paragraph})"`.
pub open spec fn spec_paragraph_key(part: int, section: int, paragraph: Seq<char>) -> Seq<char> {
    spec_section_key(part, section) + seq!['('] + paragraph + seq![')']
}

fn push_digit(s: &mut String, d: u32)
    requires
        d < 10,
    ensures
        final(s)@ == old(s)@ + seq![digit_char(d as int)],
{
    proof {
        reveal_strlit("0");
        reveal_strlit("1");
        reveal_strlit("2");
        reveal_strlit("3");
        reveal_strlit("4");
        reveal_strlit("5");
        reveal_strlit("6");
        reveal_strlit("7");
        reveal_strlit("8");
        reveal_strlit("9");
    }
    if d == 0 {
        s.append("0");
    } else if d == 1 {
        s.append("1");
    } else if d == 2 {
        s.append("2");
    } else if d == 3 {
        s.append("3");
    } else if d == 4 {
        s.append("4");
    } else if d == 5 {
        s.append("5");
    } else if d == 6 {
        s.append("6");
    } else if d == 7 {
        s.append("7");
    } else if d == 8 {
        s.append("8");
    } else {
        s.append("9");
    }
    proof {
        assert(s@ =~= old(s)@ + seq![digit_char(d as int)]);
    }
}

fn push_dec(s: &mut String, n: u32)
    ensures
        final(s)@ == old(s)@ + dec_digits(n as nat),
    decreases n,
{
    if n < 10 {
        push_digit(s, n);
    } else {
        push_dec(s, n / 10);
        push_digit(s, n % 10);
        proof {
            assert(s@ =~= old(s)@ + dec_digits(n as nat));
        }
    }
}

/// Renders an integer field of the hierarchy in decimal.
fn int_string(n: i32) -> (s: String)
    ensures
        s@ == dec_int(n as int),
{
    let mut s = String::new();
    if n < 0 {
        proof {
            reveal_strlit("-");
        }
        s.append("-");
        let m: u32 = if n == i32::MIN {
            0x8000_0000
        } else {
            (-n) as u32
        };
        push_dec(&mut s, m);
        proof {
            assert(s@ =~= dec_int(n as int));
        }
    } else {
        push_dec(&mut s, n as u32);
    }
    s
}

/// Formats the manifest grouping key `"{part}.{section}"`.
pub fn section_key(part: i32, section: i32) -> (s: String)
    ensures
        s@ == spec_section_key(part as int, section as int),
{
    let mut s = int_string(part);
    proof {
        reveal_strlit(".");
    }
    s.append(".");
    let t = int_string(section);
    s.append(t.as_str());
    proof {
        assert(s@ =~= spec_section_key(part as int, section as int));
    }
    s
}

/// Formats the paragraph content identifier `"{part}.{section}({paragraph})"`.
pub fn paragraph_key(part: i32, section: i32, paragraph: &str) -> (s: String)
    ensures
        s@ == spec_paragraph_key(part as int, section as int, paragraph@),
{
    let mut s = section_key(part, section);
    proof {
        reveal_strlit("(");
        reveal_strlit(")");
    }
    s.append("(");
    s.append(paragraph);
    s.append(")");
    proof {
        assert(s@ =~= spec_paragraph_key(part as int, section as int, paragraph@));
    }
    s
}

/// A character standing for a decimal digit.
pub open spec fn is_digit_char(c: char) -> bool {
    48 <= c as int && c as int <= 57
}

proof fn lemma_dec_digits_len(n: nat)
    ensures
        dec_digits(n).len() >= 1,
    decreases n,
{
    if n >= 10 {
        lemma_dec_digits_len(n / 10);
    }
}

proof fn lemma_dec_digits_digits(n: nat)
    ensures
        forall|i: int| 0 <= i < dec_digits(n).len() ==> is_digit_char(#[trigger] dec_digits(n)[i]),
    decreases n,
{
    if n >= 10 {
        lemma_dec_digits_digits(n / 10);
        assert forall|i: int| 0 <= i < dec_digits(n).len() implies is_digit_char(
            #[trigger] dec_digits(n)[i],
        ) by {
            if i < dec_digits(n / 10).len() {
                assert(dec_digits(n)[i] == dec_digits(n / 10)[i]);
            } else {
                assert(dec_digits(n)[i] == digit_char((n % 10) as int));
            }
        }
    }
}

proof fn lemma_digit_char_inj(x: int, y: int)
    requires
        0 <= x < 10,
        0 <= y < 10,
        digit_char(x) == digit_char(y),
    ensures
        x == y,
{
}

proof fn lemma_dec_digits_inj(a: nat, b: nat)
    requires
        dec_digits(a) == dec_digits(b),
    ensures
        a == b,
    decreases a,
{
    lemma_dec_digits_len(a);
    lemma_dec_digits_len(b);
    if a < 10 && b < 10 {
        assert(dec_digits(a)[0] == digit_char(a as int));
        assert(dec_digits(b)[0] == digit_char(b as int));
        lemma_digit_char_inj(a as int, b as int);
    } else if a < 10 {
        lemma_dec_digits_len(b / 10);
        assert(dec_digits(b).len() >= 2);
        assert(dec_digits(a).len() == 1);
    } else if b < 10 {
        lemma_dec_digits_len(a / 10);
        assert(dec_digits(a).len() >= 2);
        assert(dec_digits(b).len() == 1);
    } else {
        let s1 = dec_digits(a / 10);
        let s2 = dec_digits(b / 10);
        let c1 = digit_char((a % 10) as int);
        let c2 = digit_char((b % 10) as int);
        assert(dec_digits(a) == s1.push(c1));
        assert(dec_digits(b) == s2.push(c2));
        assert(s1.push(c1).last() == c1);
        assert(s2.push(c2).last() == c2);
        lemma_digit_char_inj((a % 10) as int, (b % 10) as int);
        assert(s1 =~= s2) by {
            assert(s1.len() == s2.len());
            assert forall|i: int| 0 <= i < s1.len() implies s1[i] == s2[i] by {
                assert(s1.push(c1)[i] == s1[i]);
                assert(s2.push(c2)[i] == s2[i]);
            }
        }
        lemma_dec_digits_inj(a / 10, b / 10);
    }
}

proof fn lemma_dec_int_no_dot(n: int)
    ensures
        forall|i: int| 0 <= i < dec_int(n).len() ==> #[trigger] dec_int(n)[i] != '.',
{
    if n < 0 {
        lemma_dec_digits_digits((-n) as nat);
        assert forall|i: int| 0 <= i < dec_int(n).len() implies #[trigger] dec_int(n)[i]
            != '.' by {
            if i == 0 {
                assert(dec_int(n)[0] == '-');
            } else {
                assert(dec_int(n)[i] == dec_digits((-n) as nat)[i - 1]);
                assert(is_digit_char(dec_digits((-n) as nat)[i - 1]));
            }
        }
    } else {
        lemma_dec_digits_digits(n as nat);
        assert forall|i: int| 0 <= i < dec_int(n).len() implies #[trigger] dec_int(n)[i]
            != '.' by {
            assert(is_digit_char(dec_digits(n as nat)[i]));
        }
    }
}

proof fn lemma_dec_int_inj(a: int, b: int)
    requires
        dec_int(a) == dec_int(b),
    ensures
        a == b,
{
    lemma_dec_digits_len(if a < 0 {
        (-a) as nat
    } else {
        a as nat
    });
    lemma_dec_digits_len(if b < 0 {
        (-b) as nat
    } else {
        b as nat
    });
    if a < 0 && b < 0 {
        let d1 = dec_digits((-a) as nat);
        let d2 = dec_digits((-b) as nat);
        assert(dec_int(a) == seq!['-'] + d1);
        assert(dec_int(b) == seq!['-'] + d2);
        assert((seq!['-'] + d1).len() == 1 + d1.len());
        assert((seq!['-'] + d2).len() == 1 + d2.len());
        assert(d1 =~= d2) by {
            assert(d1.len() == d2.len());
            assert forall|i: int| 0 <= i < d1.len() implies d1[i] == d2[i] by {
                assert((seq!['-'] + d1)[i + 1] == d1[i]);
                assert((seq!['-'] + d2)[i + 1] == d2[i]);
            }
        }
        lemma_dec_digits_inj((-a) as nat, (-b) as nat);
    } else if a < 0 {
        lemma_dec_digits_digits(b as nat);
        assert(dec_int(a)[0] == '-');
        assert(dec_int(b)[0] == dec_digits(b as nat)[0]);
        assert(is_digit_char(dec_digits(b as nat)[0]));
    } else if b < 0 {
        lemma_dec_digits_digits(a as nat);
        assert(dec_int(b)[0] == '-');
        assert(dec_int(a)[0] == dec_digits(a as nat)[0]);
        assert(is_digit_char(dec_digits(a as nat)[0]));
    } else {
        lemma_dec_digits_inj(a as nat, b as nat);
    }
}

proof fn lemma_dot_split(a1: Seq<char>, b1: Seq<char>, a2: Seq<char>, b2: Seq<char>)
    requires
        a1 + seq!['.'] + b1 == a2 + seq!['.'] + b2,
        forall|i: int| 0 <= i < a1.len() ==> #[trigger] a1[i] != '.',
        forall|i: int| 0 <= i < a2.len() ==> #[trigger] a2[i] != '.',
    ensures
        a1 == a2,
        b1 == b2,
{
    let l1 = a1 + seq!['.'] + b1;
    let l2 = a2 + seq!['.'] + b2;
    assert(l1.len() == a1.len() + 1 + b1.len());
    assert(l2.len() == a2.len() + 1 + b2.len());
    assert(l1.len() == l2.len());
    if a1.len() < a2.len() {
        assert(l1[a1.len() as int] == '.');
        assert(l2[a1.len() as int] == a2[a1.len() as int]);
    } else if a2.len() < a1.len() {
        assert(l2[a2.len() as int] == '.');
        assert(l1[a2.len() as int] == a1[a2.len() as int]);
    } else {
        assert(a1 =~= a2) by {
            assert forall|i: int| 0 <= i < a1.len() implies a1[i] == a2[i] by {
                assert(l1[i] == a1[i]);
                assert(l2[i] == a2[i]);
            }
        }
        assert(b1 =~= b2) by {
            assert(b1.len() == b2.len());
            assert forall|i: int| 0 <= i < b1.len() implies b1[i] == b2[i] by {
                assert(l1[a1.len() + 1 + i] == b1[i]);
                assert(l2[a2.len() + 1 + i] == b2[i]);
            }
        }
    }
}

/// Law: the section grouping key is injective. Two different (part, section)
/// pairs never render to the same key, so every manifest key addresses
/// exactly one section.
pub proof fn lemma_section_key_injective(p1: int, s1: int, p2: int, s2: int)
    requires
        spec_section_key(p1, s1) == spec_section_key(p2, s2),
    ensures
        p1 == p2,
        s1 == s2,
{
    lemma_dec_int_no_dot(p1);
    lemma_dec_int_no_dot(p2);
    lemma_dot_split(dec_int(p1), dec_int(s1), dec_int(p2), dec_int(s2));
    lemma_dec_int_inj(p1, p2);
    lemma_dec_int_inj(s1, s2);
}

} // verus!
