//! Decimal text: parsing of unsigned and signed integers the way the standard
//! library's `from_str` reads them, and the decimal rendering of a signed
//! integer.
use vstd::prelude::*;
use libc::pid_t;

verus! {

pub open spec fn is_digit(c: char) -> bool {
    '0' <= c && c <= '9'
}

pub open spec fn digit_value(c: char) -> int {
    c as int - '0' as int
}

pub open spec fn all_digits(s: Seq<char>) -> bool {
    forall|i: int| 0 <= i < s.len() ==> is_digit(#[trigger] s[i])
}

/// The number that a string of decimal digits denotes.
pub open spec fn digits_value(s: Seq<char>) -> int
    decreases s.len(),
{
    if s.len() == 0 {
        0
    } else {
        digits_value(s.drop_last()) * 10 + digit_value(s.last())
    }
}

/// What `u64::from_str` accepts: an optional `+`, then one or more digits,
/// denoting a value that fits in a `u64`.
pub open spec fn decimal_u64(s: Seq<char>) -> Option<u64> {
    let d = if s.len() > 1 && s[0] == '+' { s.drop_first() } else { s };
    if d.len() > 0 && all_digits(d) && digits_value(d) <= u64::MAX {
        Some(digits_value(d) as u64)
    } else {
        None
    }
}

/// What `i32::from_str` accepts: an optional `+` or `-`, then one or more
/// digits, denoting a value that fits in an `i32`.
pub open spec fn decimal_pid(s: Seq<char>) -> Option<pid_t> {
    let signed = s.len() > 1 && (s[0] == '+' || s[0] == '-');
    let d = if signed { s.drop_first() } else { s };
    let v = if signed && s[0] == '-' { -digits_value(d) } else { digits_value(d) };
    if d.len() > 0 && all_digits(d) && pid_t::MIN <= v <= pid_t::MAX {
        Some(v as pid_t)
    } else {
        None
    }
}

proof fn lemma_digits_value_nonneg(s: Seq<char>)
    requires
        all_digits(s),
    ensures
        digits_value(s) >= 0,
    decreases s.len(),
{
    if s.len() > 0 {
        assert(all_digits(s.drop_last()));
        lemma_digits_value_nonneg(s.drop_last());
        assert(is_digit(s[s.len() - 1]));
    }
}

/// Reads the digits of `s` from position `from` to its end. The result is
/// the value they denote when they are all digits and it is at most `limit`.
fn scan_digits(s: &str, from: usize, limit: u64) -> (r: Option<u64>)
    requires
        from <= s@.len(),
    ensures
        ({
            let d = s@.subrange(from as int, s@.len() as int);
            r == if all_digits(d) && digits_value(d) <= limit {
                Some(digits_value(d) as u64)
            } else {
                None::<u64>
            }
        }),
{
    let n = s.unicode_len();
    let mut i: usize = from;
    let mut acc: u64 = 0;
    let mut over = false;
    while i < n
        invariant
            n == s@.len(),
            from <= i <= n,
            all_digits(s@.subrange(from as int, i as int)),
            over ==> digits_value(s@.subrange(from as int, i as int)) > limit,
            !over ==> acc == digits_value(s@.subrange(from as int, i as int)),
            !over ==> acc <= limit,
        decreases n - i,
    {
        let c = s.get_char(i);
        let ghost prev = s@.subrange(from as int, i as int);
        let ghost next = s@.subrange(from as int, i + 1);
        proof {
            assert(next.drop_last() =~= prev);
            assert(next.last() == c);
            lemma_digits_value_nonneg(prev);
        }
        if !('0' <= c && c <= '9') {
            proof {
                let d = s@.subrange(from as int, n as int);
                assert(d[i - from] == c);
            }
            return None;
        }
        let dig = (c as u32 - '0' as u32) as u64;
        proof {
            assert(digits_value(next) == digits_value(prev) * 10 + dig);
        }
        if !over {
            if dig > limit || acc > (limit - dig) / 10 {
                proof {
                    if dig <= limit {
                        assert(acc * 10 + dig > limit) by (nonlinear_arith)
                            requires
                                acc > (limit - dig) / 10,
                                dig <= limit,
                        ;
                    } else {
                        assert(acc * 10 + dig > limit) by (nonlinear_arith)
                            requires
                                dig > limit,
                                acc >= 0,
                        ;
                    }
                }
                over = true;
            } else {
                assert(acc * 10 + dig <= limit) by (nonlinear_arith)
                    requires
                        acc <= (limit - dig) / 10,
                        dig <= limit,
                ;
                acc = acc * 10 + dig;
            }
        } else {
            assert(digits_value(next) > limit) by (nonlinear_arith)
                requires
                    digits_value(next) == digits_value(prev) * 10 + dig,
                    digits_value(prev) > limit,
                    limit >= 0,
                    dig >= 0,
            ;
        }
        proof {
            assert(all_digits(next)) by {
                assert forall|k: int| 0 <= k < next.len() implies is_digit(#[trigger] next[k]) by {
                    if k < prev.len() {
                        assert(next[k] == prev[k]);
                    }
                }
            }
        }
        i = i + 1;
    }
    proof {
        assert(s@.subrange(from as int, n as int) =~= s@.subrange(from as int, i as int));
    }
    if over {
        None
    } else {
        Some(acc)
    }
}

/// Parses `s` as `u64::from_str` does.
pub fn parse_u64_decimal(s: &str) -> (r: Option<u64>)
    ensures
        r == decimal_u64(s@),
{
    let n = s.unicode_len();
    let from: usize = if n > 1 && s.get_char(0) == '+' { 1 } else { 0 };
    let r = scan_digits(s, from, u64::MAX);
    proof {
        let d = s@.subrange(from as int, n as int);
        if from == 1 {
            assert(d =~= s@.drop_first());
        } else {
            assert(d =~= s@);
        }
    }
    if n == from {
        None
    } else {
        r
    }
}

/// Parses `s` as `i32::from_str` does.
pub fn parse_pid(s: &str) -> (r: Option<pid_t>)
    ensures
        r == decimal_pid(s@),
{
    let n = s.unicode_len();
    let signed = n > 1 && (s.get_char(0) == '+' || s.get_char(0) == '-');
    let negative = signed && s.get_char(0) == '-';
    let from: usize = if signed { 1 } else { 0 };
    let limit: u64 = if negative { 2147483648 } else { 2147483647 };
    let r = scan_digits(s, from, limit);
    let ghost d = s@.subrange(from as int, n as int);
    proof {
        if signed {
            assert(d =~= s@.drop_first());
        } else {
            assert(d =~= s@);
        }
    }
    if n == from {
        return None;
    }
    assert(r == if all_digits(d) && digits_value(d) <= limit {
        Some(digits_value(d) as u64)
    } else {
        None::<u64>
    });
    proof {
        if all_digits(d) {
            lemma_digits_value_nonneg(d);
        }
    }
    match r {
        None => None,
        Some(m) => {
            if negative {
                Some((0 - (m as i64)) as pid_t)
            } else {
                Some(m as pid_t)
            }
        },
    }
}

pub open spec fn digit_char(d: nat) -> char {
    (d + '0' as nat) as char
}

/// The decimal digits of `n`, most significant first, without leading zeros.
pub open spec fn nat_text(n: nat) -> Seq<char>
    decreases n,
{
    if n < 10 {
        seq![digit_char(n)]
    } else {
        nat_text(n / 10).push(digit_char(n % 10))
    }
}

/// The decimal text of `n`, with a leading `-` when it is negative.
pub open spec fn int_text(n: int) -> Seq<char> {
    if n < 0 {
        seq!['-'] + nat_text((-n) as nat)
    } else {
        nat_text(n as nat)
    }
}

fn digit_str(d: u64) -> (r: &'static str)
    requires
        d < 10,
    ensures
        r@ == seq![digit_char(d as nat)],
{
    proof {
        reveal_strlit("0");
        reveal_strlit("1");
        reveal_strlit("2");
        reveal_strlit("3");
        reveal_strlit("4");
        reveal_strlit("5");
        reveal_strlit("6");
        reveal_strlit("7");
        reveal_strlit("8");
        reveal_strlit("9");
    }
    let r = match d {
        0 => "0",
        1 => "1",
        2 => "2",
        3 => "3",
        4 => "4",
        5 => "5",
        6 => "6",
        7 => "7",
        8 => "8",
        _ => "9",
    };
    assert(r@ =~= seq![digit_char(d as nat)]);
    r
}

fn append_digits(out: &mut String, n: u64)
    ensures
        final(out)@ == old(out)@ + nat_text(n as nat),
    decreases n,
{
    if n >= 10 {
        append_digits(out, n / 10);
    }
    out.append(digit_str(n % 10));
    proof {
        if n >= 10 {
            assert(nat_text(n as nat) == nat_text((n / 10) as nat).push(digit_char((n % 10) as nat)));
        }
    }
    assert(out@ =~= old(out)@ + nat_text(n as nat));
}

/// The decimal text of `n`, as `i32`'s `to_string` writes it.
pub fn pid_text(n: pid_t) -> (r: String)
    ensures
        r@ == int_text(n as int),
{
    let mut out = String::new();
    if n < 0 {
        proof {
            reveal_strlit("-");
        }
        out.append("-");
        append_digits(&mut out, (0 - (n as i64)) as u64);
        assert(out@ =~= int_text(n as int));
    } else {
        append_digits(&mut out, n as u64);
        assert(out@ =~= int_text(n as int));
    }
    out
}

proof fn lemma_nat_text(n: nat)
    ensures
        nat_text(n).len() > 0,
        all_digits(nat_text(n)),
        digits_value(nat_text(n)) == n,
    decreases n,
{
    let c = digit_char(n % 10);
    assert(is_digit(c) && digit_value(c) == n % 10);
    if n >= 10 {
        let t = nat_text(n / 10);
        lemma_nat_text(n / 10);
        assert(nat_text(n) == t.push(c));
        assert(t.push(c).drop_last() =~= t);
        assert(digits_value(t.push(c)) == digits_value(t) * 10 + digit_value(c));
        assert(n == (n / 10) * 10 + n % 10);
        assert forall|i: int| 0 <= i < t.push(c).len() implies is_digit(#[trigger] t.push(c)[i]) by {
            if i < t.len() {
                assert(t.push(c)[i] == t[i]);
            }
        }
    } else {
        assert(seq![c].drop_last() =~= Seq::<char>::empty());
        assert(digits_value(Seq::<char>::empty()) == 0);
        assert(digits_value(seq![c]) == digit_value(c));
    }
}

/// The text of an identifier reads back as that identifier: what
/// `pid_text` writes, `parse_pid` returns unchanged.
pub proof fn pid_text_reads_back(n: pid_t)
    ensures
        decimal_pid(int_text(n as int)) == Some(n),
{
    if n < 0 {
        let m = (-n) as nat;
        lemma_nat_text(m);
        let s = int_text(n as int);
        assert(s.drop_first() =~= nat_text(m));
    } else {
        lemma_nat_text(n as nat);
        assert(is_digit(nat_text(n as nat)[0]));
    }
}

} // verus!
