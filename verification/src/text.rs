use vstd::prelude::*;

verus! {

/// The decimal digit character for a value below ten.
pub open spec fn dec_digit(n: int) -> char {
    if n == 0 {
        '0'
    } else if n == 1 {
        '1'
    } else if n == 2 {
        '2'
    } else if n == 3 {
        '3'
    } else if n == 4 {
        '4'
    } else if n == 5 {
        '5'
    } else if n == 6 {
        '6'
    } else if n == 7 {
        '7'
    } else if n == 8 {
        '8'
    } else {
        '9'
    }
}

/// The decimal representation of a non-negative integer,
/// most significant digit first, with no leading zeros.
pub open spec fn dec_rep(n: int) -> Seq<char>
    recommends
        n >= 0,
    decreases n,
{
    if n < 10 {
        seq![dec_digit(n)]
    } else {
        dec_rep(n / 10).push(dec_digit(n % 10))
    }
}

/// Whether a character is a decimal digit.
pub open spec fn is_dec_digit(c: char) -> bool {
    48 <= c as u32 <= 57
}

/// The numeric value of a decimal digit character.
pub open spec fn digit_val(c: char) -> int {
    c as u32 - 48
}

/// Whether every character of a sequence is a decimal digit.
pub open spec fn all_dec_digits(s: Seq<char>) -> bool {
    forall|i: int| 0 <= i < s.len() ==> is_dec_digit(#[trigger] s[i])
}

/// The numeric value of a sequence of decimal digit characters,
/// most significant digit first.
pub open spec fn dec_val(s: Seq<char>) -> int
    decreases s.len(),
{
    if s.len() == 0 {
        0
    } else {
        dec_val(s.drop_last()) * 10 + digit_val(s.last())
    }
}

/// A numeral with its optional leading plus sign removed.
pub open spec fn dec_body(s: Seq<char>) -> Seq<char> {
    if s.len() > 0 && s[0] == '+' {
        s.drop_first()
    } else {
        s
    }
}

/// The shape accepted when a port or count is read from text:
/// an optional plus sign, then at least one digit, with a value
/// that fits in sixteen bits.
pub open spec fn is_u16_numeral(s: Seq<char>) -> bool {
    let b = dec_body(s);
    b.len() > 0 && all_dec_digits(b) && dec_val(b) <= 65535
}

/// A string split at every occurrence of a separator; adjacent
/// separators and separators at either end yield empty pieces,
/// so the result always holds one more piece than there are
/// separators.
pub open spec fn split_on(s: Seq<char>, sep: char) -> Seq<Seq<char>>
    decreases s.len(),
{
    if s.len() == 0 {
        seq![Seq::<char>::empty()]
    } else if s.last() == sep {
        split_on(s.drop_last(), sep).push(Seq::<char>::empty())
    } else {
        let r = split_on(s.drop_last(), sep);
        r.update(r.len() - 1, r.last().push(s.last()))
    }
}

/// The views of a sequence of owned strings.
pub open spec fn str_views(s: Seq<String>) -> Seq<Seq<char>> {
    Seq::new(s.len(), |i: int| s[i]@)
}

proof fn lemma_split_on_nonempty(s: Seq<char>, sep: char)
    ensures
        split_on(s, sep).len() >= 1,
    decreases s.len(),
{
    if s.len() > 0 {
        lemma_split_on_nonempty(s.drop_last(), sep);
    }
}

fn push_digit(s: &mut String, d: u16)
    requires
        d < 10,
    ensures
        final(s)@ == old(s)@.push(dec_digit(d as int)),
{
    let lit: &str = if d == 0 {
        "0"
    } else if d == 1 {
        "1"
    } else if d == 2 {
        "2"
    } else if d == 3 {
        "3"
    } else if d == 4 {
        "4"
    } else if d == 5 {
        "5"
    } else if d == 6 {
        "6"
    } else if d == 7 {
        "7"
    } else if d == 8 {
        "8"
    } else {
        "9"
    };
    proof {
        reveal_strlit("0");
        reveal_strlit("1");
        reveal_strlit("2");
        reveal_strlit("3");
        reveal_strlit("4");
        reveal_strlit("5");
        reveal_strlit("6");
        reveal_strlit("7");
        reveal_strlit("8");
        reveal_strlit("9");
        assert(lit@ =~= seq![dec_digit(d as int)]);
    }
    s.append(lit);
    proof {
        assert(s@ =~= old(s)@.push(dec_digit(d as int)));
    }
}

/// Appends the decimal representation of `n` to `s`.
pub fn push_decimal(s: &mut String, n: u16)
    ensures
        final(s)@ == old(s)@ + dec_rep(n as int),
    decreases n,
{
    if n < 10 {
        push_digit(s, n);
        proof {
            assert(s@ =~= old(s)@ + dec_rep(n as int));
        }
    } else {
        proof {
            assert(n / 10 < n && n / 10 >= 1) by (nonlinear_arith)
                requires
                    n >= 10,
            ;
        }
        push_decimal(s, n / 10);
        push_digit(s, n % 10);
        proof {
            assert(s@ =~= old(s)@ + dec_rep(n as int));
        }
    }
}

/// The decimal representation of `n` as an owned string.
pub fn u16_to_decimal(n: u16) -> (r: String)
    ensures
        r@ == dec_rep(n as int),
{
    let mut s = String::new();
    push_decimal(&mut s, n);
    proof {
        assert(s@ =~= dec_rep(n as int));
    }
    s
}

proof fn lemma_dec_val_take_monotone(s: Seq<char>, j: int, k: int)
    requires
        all_dec_digits(s),
        0 <= j <= k <= s.len(),
    ensures
        dec_val(s.take(j)) <= dec_val(s.take(k)),
        dec_val(s.take(j)) >= 0,
    decreases k - j,
{
    if j == k {
        lemma_dec_val_nonneg(s.take(j));
    } else {
        lemma_dec_val_take_monotone(s, j, k - 1);
        assert(s.take(k).drop_last() =~= s.take(k - 1));
        assert(dec_val(s.take(k)) == dec_val(s.take(k - 1)) * 10 + digit_val(s.take(k).last()));
        assert(dec_val(s.take(k - 1)) * 10 >= dec_val(s.take(k - 1))) by (nonlinear_arith)
            requires
                dec_val(s.take(k - 1)) >= 0,
        ;
        assert(is_dec_digit(s[k - 1]));
    }
}

proof fn lemma_dec_val_nonneg(s: Seq<char>)
    requires
        all_dec_digits(s),
    ensures
        dec_val(s) >= 0,
    decreases s.len(),
{
    if s.len() > 0 {
        assert(all_dec_digits(s.drop_last()));
        lemma_dec_val_nonneg(s.drop_last());
        assert(is_dec_digit(s.last()));
        assert(dec_val(s.drop_last()) * 10 >= 0) by (nonlinear_arith)
            requires
                dec_val(s.drop_last()) >= 0,
        ;
    }
}

/// Reads an unsigned sixteen-bit value from text: an optional
/// plus sign, then decimal digits.  Returns nothing when the text
/// is empty, holds any other character, or names a larger value.
#[verifier::rlimit(50)]
pub fn parse_u16(s: &str) -> (r: Option<u16>)
    ensures
        r is Some <==> is_u16_numeral(s@),
        r is Some ==> r->Some_0 as int == dec_val(dec_body(s@)),
{
    let len = s.unicode_len();
    let start: usize = if len > 0 && s.get_char(0) == '+' {
        1
    } else {
        0
    };
    let ghost b = dec_body(s@);
    proof {
        assert(b =~= s@.subrange(start as int, len as int));
    }
    if len == start {
        return None;
    }
    let mut acc: u32 = 0;
    let mut i: usize = start;
    while i < len
        invariant
            start < len,
            start <= i <= len,
            len == s@.len(),
            b == dec_body(s@),
            b == s@.subrange(start as int, len as int),
            b.len() == len - start,
            all_dec_digits(b.take(i - start)),
            acc == dec_val(b.take(i - start)),
            acc <= 65535,
        decreases len - i,
    {
        let c = s.get_char(i);
        let cv = c as u32;
        if cv < 48 || cv > 57 {
            proof {
                assert(b[i - start] == s@[i as int]);
                assert(!all_dec_digits(b)) by {
                    assert(!is_dec_digit(b[i - start]));
                }
            }
            return None;
        }
        proof {
            assert(b.take(i - start + 1).drop_last() =~= b.take(i - start));
            assert(b.take(i - start + 1).last() == s@[i as int]);
        }
        let d: u32 = cv - 48;
        let next: u32 = acc * 10 + d;
        if next > 65535 {
            proof {
                assert(dec_val(b.take(i - start + 1)) == next);
                if all_dec_digits(b) {
                    assert(b.take(b.len() as int) =~= b);
                    lemma_dec_val_take_monotone(b, i - start + 1, b.len() as int);
                    assert(dec_val(b) > 65535);
                }
                assert(!is_u16_numeral(s@));
            }
            return None;
        }
        acc = next;
        i += 1;
    }
    proof {
        assert(b.take(b.len() as int) =~= b);
    }
    Some(acc as u16)
}

/// Splits text on commas, as the configured export and forget
/// lists are written.
pub fn split_csv(s: &str) -> (r: Vec<String>)
    ensures
        str_views(r@) == split_on(s@, ','),
        r@.len() >= 1,
{
    let len = s.unicode_len();
    let mut out: Vec<String> = Vec::new();
    let mut start: usize = 0;
    let mut i: usize = 0;
    proof {
        assert(split_on(s@.take(0), ',') =~~= str_views(out@).push(s@.subrange(0, 0)));
    }
    while i < len
        invariant
            start <= i <= len,
            len == s@.len(),
            split_on(s@.take(i as int), ',') == str_views(out@).push(
                s@.subrange(start as int, i as int),
            ),
        decreases len - i,
    {
        let c = s.get_char(i);
        proof {
            assert(s@.take(i + 1).drop_last() =~= s@.take(i as int));
            assert(s@.take(i + 1).last() == s@[i as int]);
            lemma_split_on_nonempty(s@.take(i as int), ',');
        }
        if c == ',' {
            let piece = String::from_str(s.substring_char(start, i));
            out.push(piece);
            proof {
                assert(split_on(s@.take(i + 1), ',') =~~= str_views(out@).push(
                    s@.subrange(i + 1, i + 1),
                ));
            }
            start = i + 1;
        } else {
            let ghost prev = split_on(s@.take(i as int), ',');
            proof {
                assert(prev.last() == s@.subrange(start as int, i as int));
                assert(s@.subrange(start as int, i as int).push(s@[i as int]) =~= s@.subrange(
                    start as int,
                    i + 1,
                ));
                assert(split_on(s@.take(i + 1), ',') =~~= str_views(out@).push(
                    s@.subrange(start as int, i + 1),
                ));
            }
        }
        i += 1;
    }
    let last_piece = String::from_str(s.substring_char(start, len));
    out.push(last_piece);
    proof {
        assert(s@.take(len as int) =~= s@);
        assert(str_views(out@) =~~= split_on(s@, ','));
    }
    out
}

} // verus!
