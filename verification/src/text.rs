//! Numbers written in and read from decimal text.

use vstd::prelude::*;

verus! {

broadcast use vstd::string::axiom_spec_iter, vstd::string::next_postcondition;

/// The characters of `key`, in order.
pub(crate) fn chars_of(key: &str) -> (r: Vec<char>)
    ensures
        r@ == key@,
{
    let ghost s = key@;
    let mut chars = key.chars();
    let mut out: Vec<char> = Vec::new();
    loop
        invariant
            out@ + vstd::std_specs::iter::IteratorSpec::remaining(&chars) == s,
            vstd::std_specs::iter::IteratorSpec::decrease(&chars) is Some,
        ensures
            out@ == s,
        decreases vstd::std_specs::iter::IteratorSpec::decrease(&chars)->0,
    {
        match chars.next() {
            Some(c) => {
                out.push(c);
            },
            None => {
                break;
            },
        }
    }
    out
}


/// The character of a decimal digit.
pub open spec fn digit_char(d: int) -> char {
    if d == 0 {
        '0'
    } else if d == 1 {
        '1'
    } else if d == 2 {
        '2'
    } else if d == 3 {
        '3'
    } else if d == 4 {
        '4'
    } else if d == 5 {
        '5'
    } else if d == 6 {
        '6'
    } else if d == 7 {
        '7'
    } else if d == 8 {
        '8'
    } else {
        '9'
    }
}

/// `n` in decimal, without sign or leading zeros.
pub open spec fn decimal_seq(n: nat) -> Seq<char>
    decreases n,
{
    if n < 10 {
        seq![digit_char(n as int)]
    } else {
        decimal_seq(n / 10).push(digit_char((n % 10) as int))
    }
}

fn digit_str(d: usize) -> (r: &'static str)
    requires
        d < 10,
    ensures
        r@ == seq![digit_char(d as int)],
{
    proof {
        reveal_strlit("0");
        reveal_strlit("1");
        reveal_strlit("2");
        reveal_strlit("3");
        reveal_strlit("4");
        reveal_strlit("5");
        reveal_strlit("6");
        reveal_strlit("7");
        reveal_strlit("8");
        reveal_strlit("9");
    }
    match d {
        0 => "0",
        1 => "1",
        2 => "2",
        3 => "3",
        4 => "4",
        5 => "5",
        6 => "6",
        7 => "7",
        8 => "8",
        _ => "9",
    }
}

/// `n` written in decimal, as `to_string` writes it.
pub fn decimal(n: usize) -> (r: String)
    ensures
        r@ == decimal_seq(n as nat),
    decreases n,
{
    if n < 10 {
        digit_str(n).to_owned()
    } else {
        let mut s = decimal(n / 10);
        s.append(digit_str(n % 10));
        s
    }
}

/// The value of a string of decimal digits.
pub open spec fn digits_value(s: Seq<char>) -> int
    decreases s.len(),
{
    if s.len() == 0 {
        0
    } else {
        digits_value(s.drop_last()) * 10 + (s.last() as int - '0' as int)
    }
}

pub open spec fn all_digits(s: Seq<char>) -> bool {
    forall|i: int| 0 <= i < s.len() ==> '0' <= #[trigger] s[i] <= '9'
}

/// What `str::parse::<usize>` gives: an optional `+` followed by at least
/// one decimal digit and nothing else, whose value fits in a `usize`.
pub open spec fn parsed_usize(s: Seq<char>) -> Option<usize> {
    let body = if s.len() > 0 && s[0] == '+' {
        s.drop_first()
    } else {
        s
    };
    if body.len() > 0 && all_digits(body) && digits_value(body) <= usize::MAX {
        Some(digits_value(body) as usize)
    } else {
        None
    }
}

/// A number written in decimal is a non-empty string of digits whose
/// value is that number.
pub proof fn lemma_decimal_digits(n: nat)
    ensures
        decimal_seq(n).len() > 0,
        all_digits(decimal_seq(n)),
        digits_value(decimal_seq(n)) == n,
    decreases n,
{
    let s = decimal_seq(n);
    if n < 10 {
        assert(s.drop_last() =~= Seq::<char>::empty());
        assert(digits_value(s) == digits_value(s.drop_last()) * 10 + (s.last() as int - '0' as int));
    } else {
        let head = decimal_seq(n / 10);
        lemma_decimal_digits(n / 10);
        assert(s.drop_last() =~= head);
        assert(digits_value(s) == digits_value(head) * 10 + (s.last() as int - '0' as int));
        assert forall|i: int| 0 <= i < s.len() implies '0' <= #[trigger] s[i] <= '9' by {
            if i < head.len() {
                assert(s[i] == head[i]);
            }
        }
    }
}

/// Extending a string of digits never lowers its value.
proof fn lemma_digits_value_grows(s: Seq<char>, j: int)
    requires
        0 <= j <= s.len(),
        all_digits(s),
    ensures
        digits_value(s.take(j)) <= digits_value(s),
        digits_value(s.take(j)) >= 0,
    decreases s.len() - j,
{
    if j < s.len() {
        lemma_digits_value_grows(s, j + 1);
        assert(s.take(j + 1).drop_last() =~= s.take(j));
        assert('0' <= s[j] <= '9');
    } else {
        assert(s.take(j) =~= s);
        lemma_digits_value_nonneg(s);
    }
}

proof fn lemma_digits_value_nonneg(s: Seq<char>)
    requires
        all_digits(s),
    ensures
        digits_value(s) >= 0,
    decreases s.len(),
{
    if s.len() > 0 {
        assert(all_digits(s.drop_last())) by {
            assert forall|i: int| 0 <= i < s.drop_last().len() implies '0' <= #[trigger] s.drop_last()[i] <= '9' by {
                assert(s.drop_last()[i] == s[i]);
            }
        }
        lemma_digits_value_nonneg(s.drop_last());
        assert('0' <= s[s.len() - 1] <= '9');
    }
}

/// Reads an unsigned number as `str::parse::<usize>` does: an optional `+`
/// and then only digits, at least one, with a value that fits; anything
/// else, sign `-`, blanks and overflow included, is an error.
pub(crate) fn parse_usize(s: &str) -> (r: Option<usize>)
    ensures
        r == parsed_usize(s@),
{
    let c = chars_of(s);
    let start: usize = if c.len() > 0 && c[0] == '+' {
        1
    } else {
        0
    };
    let ghost body = if s@.len() > 0 && s@[0] == '+' {
        s@.drop_first()
    } else {
        s@
    };
    assert(body =~= c@.skip(start as int));
    if start == c.len() {
        return None;
    }
    let mut value: usize = 0;
    let mut i: usize = start;
    while i < c.len()
        invariant
            start <= i <= c@.len(),
            c@ == s@,
            body == (if s@.len() > 0 && s@[0] == '+' {
                s@.drop_first()
            } else {
                s@
            }),
            body == c@.skip(start as int),
            all_digits(body.take(i - start)),
            value == digits_value(body.take(i - start)),
        decreases c@.len() - i,
    {
        let ch = c[i];
        let ghost j = i - start;
        assert(body[j] == ch);
        if ch < '0' || ch > '9' {
            assert(!all_digits(body));
            return None;
        }
        assert(body.take(j + 1).drop_last() =~= body.take(j));
        let d: usize = (ch as u32 - '0' as u32) as usize;
        assert(d == ch as int - '0' as int);
        assert(body.take(j + 1).last() == ch);
        assert(digits_value(body.take(j + 1)) == value * 10 + d);
        let next = match value.checked_mul(10) {
            Some(x) => x.checked_add(d),
            None => None,
        };
        match next {
            Some(n) => {
                value = n;
            },
            None => {
                proof {
                    if all_digits(body) {
                        lemma_digits_value_grows(body, j + 1);
                    }
                }
                return None;
            },
        }
        assert(all_digits(body.take(j + 1))) by {
            assert forall|k: int| 0 <= k < body.take(j + 1).len() implies '0' <= #[trigger] body.take(j + 1)[k] <= '9' by {
                if k < j {
                    assert(body.take(j + 1)[k] == body.take(j)[k]);
                }
            }
        }
        i += 1;
    }
    assert(body.take(c@.len() - start) =~= body);
    Some(value)
}

} // verus!
