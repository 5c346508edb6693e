//! Numbers as text: verified decimal formatting and parsing for
//! integers, and the trusted float text bridges.
use vstd::prelude::*;


verus! {

/// The digit character for one decimal digit.
pub open spec fn digit_char(d: nat) -> char {
    if d == 0 {
        '0'
    } else if d == 1 {
        '1'
    } else if d == 2 {
        '2'
    } else if d == 3 {
        '3'
    } else if d == 4 {
        '4'
    } else if d == 5 {
        '5'
    } else if d == 6 {
        '6'
    } else if d == 7 {
        '7'
    } else if d == 8 {
        '8'
    } else {
        '9'
    }
}

/// The decimal text of a natural number, most significant digit first.
pub open spec fn dec_nat(n: nat) -> Seq<char>
    decreases n,
{
    if n < 10 {
        seq![digit_char(n)]
    } else {
        dec_nat(n / 10) + seq![digit_char(n % 10)]
    }
}

/// The decimal text of a signed 64-bit integer.
pub open spec fn dec_i64(n: i64) -> Seq<char> {
    if n < 0 {
        seq!['-'] + dec_nat((-(n as int)) as nat)
    } else {
        dec_nat(n as nat)
    }
}

/// Whether a character is a decimal digit.
pub open spec fn is_digit(c: char) -> bool {
    '0' <= c && c <= '9'
}

/// The numeric value of a digit character.
pub open spec fn digit_val(c: char) -> nat {
    if is_digit(c) {
        (c as nat - '0' as nat) as nat
    } else {
        0
    }
}

/// The value of a digit string, most significant digit first.
pub open spec fn digits_val(s: Seq<char>) -> nat
    decreases s.len(),
{
    if s.len() == 0 {
        0
    } else {
        digits_val(s.drop_last()) * 10 + digit_val(s.last())
    }
}

/// The exec digit character for one decimal digit.
fn digit_char_exec(d: u64) -> (r: char)
    requires
        d < 10,
    ensures
        r == digit_char(d as nat),
{
    if d == 0 {
        '0'
    } else if d == 1 {
        '1'
    } else if d == 2 {
        '2'
    } else if d == 3 {
        '3'
    } else if d == 4 {
        '4'
    } else if d == 5 {
        '5'
    } else if d == 6 {
        '6'
    } else if d == 7 {
        '7'
    } else if d == 8 {
        '8'
    } else {
        '9'
    }
}

/// Reversing a pushed sequence puts the new element first.
proof fn lemma_reverse_push(s: Seq<char>, x: char)
    ensures
        s.push(x).reverse() =~= seq![x] + s.reverse(),
{
}

/// The decimal text of a natural number held in a `u64`.
#[verifier::loop_isolation(false)]
pub fn fmt_nat(m: u64) -> (r: Vec<char>)
    ensures
        r@ == dec_nat(m as nat),
{
    let mut acc: Vec<char> = Vec::new();
    let mut cur: u64 = m;
    while cur >= 10
        invariant
            dec_nat(m as nat) =~= dec_nat(cur as nat) + acc@.reverse(),
        decreases cur,
    {
        let d = cur % 10;
        proof {
            lemma_reverse_push(acc@, digit_char((cur % 10) as nat));
            assert(dec_nat(cur as nat) == dec_nat((cur as nat) / 10) + seq![
                digit_char((cur as nat) % 10),
            ]);
            assert((cur as nat) / 10 == (cur / 10) as nat);
            assert((cur as nat) % 10 == (cur % 10) as nat);
        }
        acc.push(digit_char_exec(d));
        cur = cur / 10;
        proof {
            assert(dec_nat(m as nat) =~= dec_nat(cur as nat) + acc@.reverse());
        }
    }
    proof {
        lemma_reverse_push(acc@, digit_char(cur as nat));
    }
    acc.push(digit_char_exec(cur));
    let mut out: Vec<char> = Vec::new();
    let n = acc.len();
    let mut i: usize = 0;
    while i < n
        invariant
            0 <= i <= n,
            n == acc@.len(),
            out@.len() == i,
            forall|j: int| 0 <= j < i ==> out@[j] == acc@.reverse()[j],
        decreases n - i,
    {
        out.push(acc[n - 1 - i]);
        i += 1;
    }
    proof {
        assert(out@ =~= acc@.reverse());
    }
    out
}

/// The decimal text of a signed 64-bit integer.
pub fn fmt_i64(n: i64) -> (r: Vec<char>)
    ensures
        r@ == dec_i64(n),
{
    if n >= 0 {
        fmt_nat(n as u64)
    } else {
        let m: u64 = (-(n + 1)) as u64 + 1;
        proof {
            assert(m as nat == (-(n as int)) as nat);
        }
        let digits = fmt_nat(m);
        let mut out: Vec<char> = Vec::new();
        out.push('-');
        let k = digits.len();
        let mut i: usize = 0;
        while i < k
            invariant
                0 <= i <= k,
                k == digits@.len(),
                out@.len() == i + 1,
                out@[0] == '-',
                forall|j: int| 0 <= j < i ==> out@[j + 1] == digits@[j],
            decreases k - i,
        {
            out.push(digits[i]);
            i += 1;
        }
        proof {
            assert(out@ =~= seq!['-'] + digits@);
        }
        out
    }
}

/// Digit-string values are unchanged by leading context and nonnegative;
/// a prefix never exceeds the whole.
proof fn lemma_digits_prefix(s: Seq<char>, i: int)
    requires
        0 <= i <= s.len(),
    ensures
        digits_val(s.subrange(0, i)) <= digits_val(s),
    decreases s.len() - i,
{
    if i < s.len() {
        lemma_digits_prefix(s, i + 1);
        let p = s.subrange(0, i + 1);
        assert(p.drop_last() =~= s.subrange(0, i));
        assert(digits_val(s.subrange(0, i)) * 10 + digit_val(p.last()) == digits_val(p));
        assert(digits_val(s.subrange(0, i)) <= digits_val(p)) by (nonlinear_arith)
            requires
                digits_val(s.subrange(0, i)) * 10 + digit_val(p.last()) == digits_val(p),
        {
        }
    } else {
        assert(s.subrange(0, i) =~= s);
    }
}

/// Parses a digit string into an `i64`: succeeds exactly when the value
/// fits.
#[verifier::loop_isolation(false)]
pub fn parse_digits(s: &Vec<char>, from: usize, to: usize) -> (r: Option<i64>)
    requires
        0 <= from <= to <= s@.len(),
        forall|j: int| from <= j < to ==> is_digit(#[trigger] s@[j]),
    ensures
        r is Some <==> digits_val(s@.subrange(from as int, to as int)) <= i64::MAX,
        r is Some ==> r->Some_0 >= 0 && r->Some_0 as nat == digits_val(
            s@.subrange(from as int, to as int),
        ),
{
    let ghost whole = s@.subrange(from as int, to as int);
    let mut acc: i64 = 0;
    let mut i: usize = from;
    while i < to
        invariant
            from <= i <= to,
            acc >= 0,
            acc as nat == digits_val(s@.subrange(from as int, i as int)),
        decreases to - i,
    {
        let c = s[i];
        let d: i64 = (c as u32 as i64) - ('0' as u32 as i64);
        proof {
            assert(s@.subrange(from as int, i + 1).drop_last() =~= s@.subrange(
                from as int,
                i as int,
            ));
            assert(is_digit(s@[i as int]));
            assert(d == digit_val(s@[i as int]));
        }
        let m = match acc.checked_mul(10) {
            Some(v) => v,
            None => {
                proof {
                    lemma_digits_prefix(whole, i + 1 - from);
                    assert(whole.subrange(0, i + 1 - from) =~= s@.subrange(from as int, i + 1));
                    assert(digits_val(s@.subrange(from as int, i + 1)) > i64::MAX) by (
                    nonlinear_arith)
                        requires
                            digits_val(s@.subrange(from as int, i + 1)) == digits_val(
                                s@.subrange(from as int, i as int),
                            ) * 10 + digit_val(s@[i as int]),
                            digits_val(s@.subrange(from as int, i as int)) * 10 > i64::MAX,
                    {
                    }
                }
                return None;
            },
        };
        let a = match m.checked_add(d) {
            Some(v) => v,
            None => {
                proof {
                    lemma_digits_prefix(whole, i + 1 - from);
                    assert(whole.subrange(0, i + 1 - from) =~= s@.subrange(from as int, i + 1));
                }
                return None;
            },
        };
        acc = a;
        i += 1;
    }
    proof {
        assert(s@.subrange(from as int, to as int) =~= whole);
    }
    Some(acc)
}

/// What the shortest-roundtrip decimal text of the encoded double is
/// (std's plain formatting of an `f64`).
pub uninterp spec fn fmt_float_plain(b: u64) -> Seq<char>;

/// What formatting the encoded double with five decimal places gives.
pub uninterp spec fn fmt_float_5(b: u64) -> Seq<char>;

/// What std's float parser returns, as bits, for a literal of the shape
/// `digits? '.' digits`.
pub uninterp spec fn parse_float_bits(s: Seq<char>) -> u64;

/// Relies on std's `Display` for `f64` (the shortest decimal text that
/// reads back to the same double, a pure function of the bits).
#[verifier::external_body]
pub fn fl_format_plain(b: u64) -> (r: Vec<char>)
    ensures
        r@ == fmt_float_plain(b),
{
    let t = wide::f64x2::from_bits(wide::u64x2::new([b, b])).to_array();
    format!("{}", t[0]).chars().collect()
}

/// Relies on std's fixed-precision float formatting with five decimal
/// places (a pure function of the bits).
#[verifier::external_body]
pub fn fl_format_5(b: u64) -> (r: Vec<char>)
    ensures
        r@ == fmt_float_5(b),
{
    let t = wide::f64x2::from_bits(wide::u64x2::new([b, b])).to_array();
    format!("{:.5}", t[0]).chars().collect()
}

/// Whether the text has the float-literal shape: exactly one dot, at
/// least one digit after it, digits everywhere else.
pub open spec fn is_float_text(s: Seq<char>) -> bool {
    exists|k: int|
        0 <= k < s.len() - 1 && #[trigger] s[k] == '.' && (forall|j: int|
            0 <= j < s.len() && j != k ==> is_digit(#[trigger] s[j]))
}

/// Relies on std's float parser (correctly rounded, a pure function of
/// the text); a literal of the required shape always parses, so the
/// call cannot fault.
#[verifier::external_body]
pub fn fl_parse(s: &Vec<char>, from: usize, to: usize) -> (r: u64)
    requires
        from <= to <= s@.len(),
        is_float_text(s@.subrange(from as int, to as int)),
    ensures
        r == parse_float_bits(s@.subrange(from as int, to as int)),
{
    let text: String = s[from..to].iter().collect();
    let mut t = wide::f64x2::ZERO.to_array();
    t[0] = text.parse().unwrap();
    wide::f64x2::new(t).to_bits().to_array()[0]
}

/// Relies on `str::chars`: the characters of the text, in order.
#[verifier::external_body]
pub fn str_to_chars(s: &str) -> (r: Vec<char>)
    ensures
        r@ == s@,
{
    s.chars().collect()
}

/// Relies on `String`'s `FromIterator` over characters: the text with
/// exactly these characters, in order.
#[verifier::external_body]
pub fn chars_to_string(v: &Vec<char>) -> (r: String)
    ensures
        r@ == v@,
{
    v.iter().collect()
}

/// What `char::from_u32` returns for a valid code point.
pub uninterp spec fn cp_char(n: u32) -> char;

/// Relies on `char::from_u32`: a character for every valid code point
/// (below the surrogate range or between it and the Unicode maximum).
#[verifier::external_body]
pub fn char_of_u32(n: u32) -> (r: Option<char>)
    ensures
        r is Some <==> (n < 0xD800 || (0xE000 <= n && n < 0x11_0000)),
        r is Some ==> r->Some_0 == cp_char(n) && r->Some_0 as u32 == n,
{
    char::from_u32(n)
}

} // verus!
