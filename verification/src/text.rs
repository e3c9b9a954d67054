//! Building blocks for the Markdown text the library produces: decimal
//! numerals, thousands separators, zero padding and UTF-8 byte widths.
use vstd::prelude::*;
use vstd::utf8::encode_scalar;
use vstd::utf8::encode_utf8;

verus! {

/// `String::push` appends one character.
pub assume_specification[ String::push ](s: &mut String, ch: char)
    ensures
        final(s)@ == old(s)@.push(ch),
;

/// `String::push_str` appends the characters of a string slice.
pub assume_specification[ String::push_str ](s: &mut String, string: &str)
    ensures
        final(s)@ == old(s)@ + string@,
;

/// The ASCII character of a decimal digit.
pub open spec fn digit_char(d: nat) -> char
    recommends
        d < 10,
{
    ((d + 48) as u8) as char
}

/// The decimal numeral of `n`, without sign or leading zeros.
pub open spec fn decimal(n: nat) -> Seq<char>
    decreases n,
{
    if n < 10 {
        seq![digit_char(n)]
    } else {
        decimal(n / 10).push(digit_char(n % 10))
    }
}

/// `digits` with a comma before every group of three digits counted from the
/// right, as in `1,234,567`.
pub open spec fn group_thousands(digits: Seq<char>) -> Seq<char>
    decreases digits.len(),
{
    if digits.len() <= 3 {
        digits
    } else {
        group_thousands(digits.subrange(0, digits.len() - 3)) + seq![',']
            + digits.subrange(digits.len() - 3, digits.len() as int)
    }
}

/// The decimal numeral of `n` with thousands separators.
pub open spec fn grouped_decimal(n: nat) -> Seq<char> {
    group_thousands(decimal(n))
}

/// `s` preceded by as many `'0'` as make it `width` characters long.
pub open spec fn left_zeros(s: Seq<char>, width: nat) -> Seq<char> {
    if s.len() >= width {
        s
    } else {
        Seq::new((width - s.len()) as nat, |i: int| '0') + s
    }
}

/// An integer written as Rust's `{:0w$}` writes it: a minus sign for a
/// negative value, then zeros, so that sign and digits fill `width`.
pub open spec fn padded_int(v: int, width: nat) -> Seq<char> {
    if v >= 0 {
        left_zeros(decimal(v as nat), width)
    } else {
        seq!['-'] + left_zeros(decimal((-v) as nat), if width >= 1 { (width - 1) as nat } else { 0 })
    }
}

/// `s` with every comma removed.
pub open spec fn without_commas(s: Seq<char>) -> Seq<char>
    decreases s.len(),
{
    if s.len() == 0 {
        Seq::empty()
    } else if s.last() == ',' {
        without_commas(s.drop_last())
    } else {
        without_commas(s.drop_last()).push(s.last())
    }
}

/// The items of `parts` separated by `sep`.
pub open spec fn join(parts: Seq<Seq<char>>, sep: Seq<char>) -> Seq<char>
    decreases parts.len(),
{
    if parts.len() == 0 {
        Seq::empty()
    } else if parts.len() == 1 {
        parts[0]
    } else {
        join(parts.drop_last(), sep) + sep + parts.last()
    }
}

pub proof fn lemma_join_push(parts: Seq<Seq<char>>, sep: Seq<char>, x: Seq<char>)
    ensures
        join(parts.push(x), sep) == if parts.len() == 0 {
            x
        } else {
            join(parts, sep) + sep + x
        },
{
    assert(parts.push(x).drop_last() =~= parts);
}

/// The number of bytes in the UTF-8 encoding of `c`.
pub open spec fn utf8_width(c: char) -> nat {
    encode_scalar(c as u32).len()
}

/// The number of bytes in the UTF-8 encoding of `s`, which is what
/// `str::len` returns.
pub open spec fn utf8_len(s: Seq<char>) -> nat {
    encode_utf8(s).len()
}

/// The longest prefix of `s` whose UTF-8 encoding fits in `n` bytes.
pub open spec fn utf8_prefix(s: Seq<char>, n: nat) -> Seq<char>
    decreases s.len(),
{
    if s.len() == 0 || utf8_width(s[0]) > n {
        Seq::empty()
    } else {
        seq![s[0]] + utf8_prefix(s.drop_first(), (n - utf8_width(s[0])) as nat)
    }
}

pub proof fn lemma_decimal_len(n: nat)
    ensures
        decimal(n).len() >= 1,
        n >= 10 ==> decimal(n).len() >= 2,
        n >= 100 ==> decimal(n).len() >= 3,
        n >= 1000 ==> decimal(n).len() >= 4,
        n < 10 ==> decimal(n).len() == 1,
        10 <= n < 100 ==> decimal(n).len() == 2,
        100 <= n < 1000 ==> decimal(n).len() == 3,
    decreases n,
{
    if n >= 10 {
        lemma_decimal_len(n / 10);
    }
}

pub open spec fn pow10(k: nat) -> nat
    decreases k,
{
    if k == 0 {
        1
    } else {
        10 * pow10((k - 1) as nat)
    }
}

pub proof fn lemma_decimal_len_bound(n: nat, k: nat)
    requires
        k >= 1,
        n < pow10(k),
    ensures
        decimal(n).len() <= k,
    decreases n,
{
    if n >= 10 {
        if k == 1 {
            assert(pow10(1) == 10 * pow10(0));
        } else {
            assert(pow10(k) == 10 * pow10((k - 1) as nat));
            lemma_decimal_len_bound(n / 10, (k - 1) as nat);
        }
    }
}

/// A `u64` has at most twenty digits.
pub proof fn lemma_decimal_len_u64(n: u64)
    ensures
        decimal(n as nat).len() <= 20,
{
    reveal_with_fuel(pow10, 21);
    assert(pow10(20) == 100_000_000_000_000_000_000);
    lemma_decimal_len_bound(n as nat, 20);
}

/// The decimal numeral of a number of at least four digits is the numeral of
/// its thousands followed by its last three digits.
pub proof fn lemma_decimal_thousands(n: nat)
    requires
        n >= 1000,
    ensures
        decimal(n) == decimal(n / 1000) + seq![
            digit_char((n / 100) % 10),
            digit_char((n / 10) % 10),
            digit_char(n % 10),
        ],
{
    assert((n / 10) / 10 == n / 100);
    assert((n / 100) / 10 == n / 1000);
    assert(((n / 10) / 10) % 10 == (n / 100) % 10);
    let a = decimal(n / 1000);
    assert(decimal(n / 100) == a.push(digit_char((n / 100) % 10)));
    assert(decimal(n / 10) == decimal(n / 100).push(digit_char((n / 10) % 10)));
    assert(decimal(n) == decimal(n / 10).push(digit_char(n % 10)));
    assert(decimal(n) =~= a + seq![
        digit_char((n / 100) % 10),
        digit_char((n / 10) % 10),
        digit_char(n % 10),
    ]);
}

pub proof fn lemma_grouped_thousands(n: nat)
    requires
        n >= 1000,
    ensures
        grouped_decimal(n) == grouped_decimal(n / 1000) + seq![','] + seq![
            digit_char((n / 100) % 10),
            digit_char((n / 10) % 10),
            digit_char(n % 10),
        ],
{
    lemma_decimal_thousands(n);
    lemma_decimal_len(n / 1000);
    let d = decimal(n);
    let a = decimal(n / 1000);
    let t = seq![digit_char((n / 100) % 10), digit_char((n / 10) % 10), digit_char(n % 10)];
    assert(d.subrange(0, d.len() - 3) =~= a);
    assert(d.subrange(d.len() - 3, d.len() as int) =~= t);
}

/// Appends the decimal numeral of `n` to `out`.
pub fn push_decimal(out: &mut String, n: u64)
    ensures
        final(out)@ == old(out)@ + decimal(n as nat),
    decreases n,
{
    if n >= 10 {
        push_decimal(out, n / 10);
    }
    let d: u8 = (n % 10) as u8;
    out.push((d + 48) as char);
    proof {
        assert(old(out)@ + decimal(n as nat) =~= final(out)@) by {
            if n >= 10 {
                assert(decimal(n as nat) == decimal((n / 10) as nat).push(digit_char((n % 10) as nat)));
            }
        }
    }
}

/// The decimal numeral of `n`, as `n.to_string()` writes it.
pub fn decimal_string(n: u64) -> (res: String)
    ensures
        res@ == decimal(n as nat),
{
    let mut s = String::new();
    push_decimal(&mut s, n);
    proof {
        assert(s@ =~= decimal(n as nat));
    }
    s
}

/// Appends the last three decimal digits of `r`, zeros included.
fn push_three_digits(out: &mut String, r: u64)
    ensures
        final(out)@ == old(out)@ + seq![
            digit_char(((r / 100) % 10) as nat),
            digit_char(((r / 10) % 10) as nat),
            digit_char((r % 10) as nat),
        ],
{
    out.push((((r / 100) % 10) as u8 + 48) as char);
    out.push((((r / 10) % 10) as u8 + 48) as char);
    out.push(((r % 10) as u8 + 48) as char);
    assert(final(out)@ =~= old(out)@ + seq![
        digit_char(((r / 100) % 10) as nat),
        digit_char(((r / 10) % 10) as nat),
        digit_char((r % 10) as nat),
    ]);
}

proof fn lemma_low_digits(n: nat)
    ensures
        (n / 100) % 10 == ((n % 1000) / 100) % 10,
        (n / 10) % 10 == ((n % 1000) / 10) % 10,
        n % 10 == (n % 1000) % 10,
{
    assert((n / 100) % 10 == ((n % 1000) / 100) % 10) by (nonlinear_arith);
    assert((n / 10) % 10 == ((n % 1000) / 10) % 10) by (nonlinear_arith);
    assert(n % 10 == (n % 1000) % 10) by (nonlinear_arith);
}

/// Appends the decimal numeral of `n` with thousands separators.
pub fn push_grouped(out: &mut String, n: u64)
    ensures
        final(out)@ == old(out)@ + grouped_decimal(n as nat),
    decreases n,
{
    if n < 1000 {
        push_decimal(out, n);
        proof {
            lemma_decimal_len(n as nat);
        }
    } else {
        push_grouped(out, n / 1000);
        out.push(',');
        push_three_digits(out, n % 1000);
        proof {
            lemma_grouped_thousands(n as nat);
            lemma_low_digits(n as nat);
            assert(final(out)@ =~= old(out)@ + grouped_decimal(n as nat));
        }
    }
}

/// Formats a number with thousands separators: `1234567` gives `1,234,567`.
pub fn format_number(n: u64) -> (res: String)
    ensures
        res@ == grouped_decimal(n as nat),
{
    let mut s = String::new();
    push_grouped(&mut s, n);
    proof {
        assert(s@ =~= grouped_decimal(n as nat));
    }
    s
}


pub proof fn lemma_utf8_len_concat(a: Seq<char>, b: Seq<char>)
    ensures
        utf8_len(a + b) == utf8_len(a) + utf8_len(b),
    decreases a.len(),
{
    if a.len() == 0 {
        assert(a + b =~= b);
    } else {
        assert((a + b)[0] == a[0]);
        assert((a + b).drop_first() =~= a.drop_first() + b);
        lemma_utf8_len_concat(a.drop_first(), b);
    }
}

pub proof fn lemma_utf8_len_single(c: char)
    ensures
        utf8_len(seq![c]) == utf8_width(c),
{
    assert(seq![c].drop_first() =~= Seq::<char>::empty());
    assert(encode_utf8(Seq::<char>::empty()) =~= Seq::<u8>::empty());
    assert(encode_utf8(seq![c]) == encode_scalar(c as u32) + encode_utf8(seq![c].drop_first()));
    assert(encode_utf8(seq![c]) =~= encode_scalar(c as u32));
}

/// The UTF-8 length of a prefix grows by the width of the next character.
pub proof fn lemma_utf8_len_take(s: Seq<char>, i: int)
    requires
        0 <= i < s.len(),
    ensures
        utf8_len(s.take(i + 1)) == utf8_len(s.take(i)) + utf8_width(s[i]),
        utf8_len(s.take(i + 1)) <= utf8_len(s),
{
    assert(s.take(i + 1) =~= s.take(i) + seq![s[i]]);
    lemma_utf8_len_concat(s.take(i), seq![s[i]]);
    lemma_utf8_len_single(s[i]);
    assert(s =~= s.take(i + 1) + s.skip(i + 1));
    lemma_utf8_len_concat(s.take(i + 1), s.skip(i + 1));
}

/// When the first `i` characters fit in `n` bytes and the next one does not,
/// they are the longest prefix that fits.
pub proof fn lemma_utf8_prefix_take(s: Seq<char>, i: int, n: nat)
    requires
        0 <= i < s.len(),
        utf8_len(s.take(i)) <= n,
        utf8_len(s.take(i)) + utf8_width(s[i]) > n,
    ensures
        utf8_prefix(s, n) == s.take(i),
    decreases i,
{
    if i == 0 {
        assert(s.take(0) =~= Seq::<char>::empty());
    } else {
        let w0 = utf8_width(s[0]);
        let t = s.drop_first();
        assert(s.take(i) =~= seq![s[0]] + t.take(i - 1));
        lemma_utf8_len_concat(seq![s[0]], t.take(i - 1));
        lemma_utf8_len_single(s[0]);
        assert(t[i - 1] == s[i]);
        lemma_utf8_prefix_take(t, i - 1, (n - w0) as nat);
        assert(utf8_prefix(s, n) =~= seq![s[0]] + t.take(i - 1));
    }
}

/// The number of bytes in the UTF-8 encoding of `c`, as `char::len_utf8`
/// returns it.
pub fn char_utf8_width(c: char) -> (res: usize)
    ensures
        res == utf8_width(c),
        1 <= res <= 4,
{
    proof {
        vstd::utf8::char_is_scalar(c);
    }
    let v = c as u32;
    if v <= 0x7f {
        1
    } else if v <= 0x7ff {
        2
    } else if v <= 0xffff {
        3
    } else {
        4
    }
}


proof fn lemma_without_commas_concat(a: Seq<char>, b: Seq<char>)
    ensures
        without_commas(a + b) == without_commas(a) + without_commas(b),
    decreases b.len(),
{
    if b.len() == 0 {
        assert(a + b =~= a);
        assert(without_commas(a) + without_commas(b) =~= without_commas(a));
    } else {
        assert((a + b).drop_last() =~= a + b.drop_last());
        assert((a + b).last() == b.last());
        lemma_without_commas_concat(a, b.drop_last());
        assert(without_commas(a + b) =~= without_commas(a) + without_commas(b));
    }
}

proof fn lemma_digit_not_comma(d: nat)
    requires
        d < 10,
    ensures
        digit_char(d) != ',',
{
    assert((((d + 48) as u8) as char) as u32 == d + 48);
}

proof fn lemma_decimal_has_no_commas(n: nat)
    ensures
        without_commas(decimal(n)) == decimal(n),
    decreases n,
{
    if n < 10 {
        lemma_digit_not_comma(n);
        let d = seq![digit_char(n)];
        assert(d.drop_last() =~= Seq::<char>::empty());
        assert(d.last() == digit_char(n));
        assert(without_commas(Seq::<char>::empty()) == Seq::<char>::empty());
        assert(without_commas(d) == without_commas(d.drop_last()).push(d.last()));
        assert(without_commas(decimal(n)) =~= decimal(n));
    } else {
        lemma_decimal_has_no_commas(n / 10);
        lemma_digit_not_comma(n % 10);
        let d = decimal(n);
        assert(d.drop_last() =~= decimal(n / 10));
        assert(d.last() == digit_char(n % 10));
        assert(without_commas(d) =~= d);
    }
}

/// Thousands separators only add commas: taking them out again gives the
/// plain decimal numeral.
pub proof fn lemma_grouping_keeps_digits(n: nat)
    ensures
        without_commas(grouped_decimal(n)) == decimal(n),
        n < 1000 ==> grouped_decimal(n) == decimal(n),
    decreases n,
{
    lemma_decimal_len(n);
    if n < 1000 {
        lemma_decimal_has_no_commas(n);
    } else {
        lemma_grouping_keeps_digits(n / 1000);
        lemma_grouped_thousands(n);
        lemma_decimal_thousands(n);
        let t = seq![digit_char((n / 100) % 10), digit_char((n / 10) % 10), digit_char(n % 10)];
        lemma_without_commas_concat(grouped_decimal(n / 1000) + seq![','], t);
        lemma_without_commas_concat(grouped_decimal(n / 1000), seq![',']);
        let c = seq![','];
        assert(c.drop_last() =~= Seq::<char>::empty());
        assert(c.last() == ',');
        assert(without_commas(Seq::<char>::empty()) == Seq::<char>::empty());
        assert(without_commas(c) == without_commas(c.drop_last()));
        assert(without_commas(c) =~= Seq::<char>::empty());
        lemma_digit_not_comma((n / 100) % 10);
        lemma_digit_not_comma((n / 10) % 10);
        lemma_digit_not_comma(n % 10);
        assert(t.drop_last().drop_last().drop_last() =~= Seq::<char>::empty());
        assert(without_commas(t.drop_last().drop_last()) =~= seq![digit_char((n / 100) % 10)]);
        assert(without_commas(t.drop_last()) =~= seq![digit_char((n / 100) % 10), digit_char((n / 10) % 10)]);
        assert(without_commas(t) =~= t);
        assert(without_commas(grouped_decimal(n)) =~= decimal(n));
    }
}

/// Cutting to a byte budget gives a prefix that fits in it.
pub proof fn lemma_utf8_prefix_fits(s: Seq<char>, n: nat)
    ensures
        utf8_len(utf8_prefix(s, n)) <= n,
        utf8_prefix(s, n).len() <= s.len(),
        utf8_prefix(s, n) == s.take(utf8_prefix(s, n).len() as int),
    decreases s.len(),
{
    if s.len() == 0 || utf8_width(s[0]) > n {
        assert(encode_utf8(Seq::<char>::empty()) =~= Seq::<u8>::empty());
        assert(s.take(0) =~= Seq::<char>::empty());
    } else {
        let w = utf8_width(s[0]);
        let rest = utf8_prefix(s.drop_first(), (n - w) as nat);
        lemma_utf8_prefix_fits(s.drop_first(), (n - w) as nat);
        lemma_utf8_len_concat(seq![s[0]], rest);
        lemma_utf8_len_single(s[0]);
        assert(seq![s[0]] + rest =~= s.take(rest.len() as int + 1));
    }
}


proof fn lemma_decimal_digits_only(n: nat)
    ensures
        forall|i: int| 0 <= i < decimal(n).len() ==> #[trigger] decimal(n)[i] != ',',
    decreases n,
{
    if n < 10 {
        lemma_digit_not_comma(n);
    } else {
        lemma_decimal_digits_only(n / 10);
        lemma_digit_not_comma(n % 10);
        let p = decimal(n / 10);
        assert forall|i: int| 0 <= i < decimal(n).len() implies #[trigger] decimal(n)[i] != ',' by {
            if i < p.len() {
                assert(decimal(n)[i] == p[i]);
            }
        }
    }
}

/// The shape of a thousands-separated numeral of `d` digits: it is
/// `d + (d - 1) / 3` long, it does not start with a comma, and a comma
/// stands exactly where the distance to the last character is 3, 7, 11, …
/// So the first group has one to three digits and every later group three.
#[verifier::rlimit(40)]
pub proof fn lemma_grouping_shape(n: nat)
    ensures
        ({
            let g = grouped_decimal(n);
            let d = decimal(n).len();
            &&& g.len() == d + (d - 1) / 3
            &&& g.len() % 4 != 0
            &&& g[0] != ','
            &&& forall|i: int| 0 <= i < g.len() ==> (#[trigger] g[i] == ',' <==> (g.len() - 1 - i) % 4 == 3)
        }),
    decreases n,
{
    lemma_decimal_len(n);
    if n < 1000 {
        lemma_decimal_digits_only(n);
        lemma_grouping_keeps_digits(n);
    } else {
        lemma_grouping_shape(n / 1000);
        lemma_grouped_thousands(n);
        lemma_decimal_thousands(n);
        lemma_decimal_len(n / 1000);
        let gp = grouped_decimal(n / 1000);
        let t = seq![digit_char((n / 100) % 10), digit_char((n / 10) % 10), digit_char(n % 10)];
        let g = grouped_decimal(n);
        lemma_digit_not_comma((n / 100) % 10);
        lemma_digit_not_comma((n / 10) % 10);
        lemma_digit_not_comma(n % 10);
        assert(g == gp + seq![','] + t);
        let lp = gp.len() as int;
        assert forall|i: int| 0 <= i < g.len() implies (#[trigger] g[i] == ',' <==> (g.len() - 1 - i) % 4 == 3) by {
            if i < lp {
                assert(g[i] == gp[i]);
                assert((g.len() - 1 - i) % 4 == (gp.len() - 1 - i) % 4);
            } else if i == lp {
                assert(g[i] == ',');
            } else {
                assert(g[i] == t[i - lp - 1]);
            }
        }
        assert(g[0] == gp[0]);
    }
}


/// `a` comes before `b` in the order of strings: at the first place where
/// they differ, `a` has the smaller character.  (For strings of the same
/// length this is the order `str`'s `<` gives.)
pub open spec fn text_lt(a: Seq<char>, b: Seq<char>) -> bool {
    exists|k: int|
        0 <= k < a.len() && k < b.len() && #[trigger] a.take(k) == b.take(k) && (a[k] as u32) < (
        b[k] as u32)
}

/// `a` equals `b` or comes before it.
pub open spec fn text_le(a: Seq<char>, b: Seq<char>) -> bool {
    a == b || text_lt(a, b)
}

/// Two strings ordered at some place stay so ordered with a common text
/// before them and any texts after them.
pub proof fn lemma_text_lt_within(pre: Seq<char>, a: Seq<char>, b: Seq<char>, post_a: Seq<char>, post_b: Seq<char>)
    requires
        text_lt(a, b),
    ensures
        text_lt(pre + a + post_a, pre + b + post_b),
{
    let k = choose|k: int|
        0 <= k < a.len() && k < b.len() && #[trigger] a.take(k) == b.take(k) && (a[k] as u32) < (
        b[k] as u32);
    let x = pre + a + post_a;
    let y = pre + b + post_b;
    let j = pre.len() + k;
    assert(x.take(j) =~= pre + a.take(k));
    assert(y.take(j) =~= pre + b.take(k));
    assert(x[j] == a[k]);
    assert(y[j] == b[k]);
    assert(0 <= j < x.len() && j < y.len() && x.take(j) == y.take(j) && (x[j] as u32) < (y[j] as u32));
}

proof fn lemma_digit_code(d: nat)
    requires
        d < 10,
    ensures
        digit_char(d) as u32 == d + 48,
{
}

/// The two digits of a number below 100, with a leading zero.
pub open spec fn two_digits(v: nat) -> Seq<char> {
    seq![digit_char(v / 10), digit_char(v % 10)]
}

/// The four digits of a number from 1000 to 9999.
pub open spec fn four_digits(v: nat) -> Seq<char> {
    seq![digit_char(v / 1000), digit_char((v / 100) % 10), digit_char((v / 10) % 10), digit_char(v % 10)]
}

pub proof fn lemma_padded_two(v: nat)
    requires
        v < 100,
    ensures
        padded_int(v as int, 2) == two_digits(v),
{
    lemma_decimal_len(v);
    if v < 10 {
        assert(digit_char(0) == '0') by {
            lemma_digit_code(0);
        }
        assert(left_zeros(decimal(v), 2) =~= two_digits(v));
    } else {
        assert(decimal(v) == decimal(v / 10).push(digit_char(v % 10)));
        assert(decimal(v) =~= two_digits(v));
    }
}

pub proof fn lemma_padded_four(v: nat)
    requires
        1000 <= v < 10000,
    ensures
        padded_int(v as int, 4) == four_digits(v),
{
    lemma_decimal_len(v);
    lemma_decimal_thousands(v);
    assert(decimal(v / 1000) == seq![digit_char(v / 1000)]);
    assert(decimal(v) =~= four_digits(v));
}

pub proof fn lemma_two_digits_lt(a: nat, b: nat)
    requires
        a < b < 100,
    ensures
        text_lt(two_digits(a), two_digits(b)),
{
    let x = two_digits(a);
    let y = two_digits(b);
    lemma_digit_code(a / 10);
    lemma_digit_code(b / 10);
    lemma_digit_code(a % 10);
    lemma_digit_code(b % 10);
    if a / 10 < b / 10 {
        assert(x.take(0) =~= y.take(0));
        assert(0 <= 0 < x.len() && 0 < y.len() && x.take(0) == y.take(0) && (x[0] as u32) < (y[0] as u32));
    } else {
        assert(a / 10 == b / 10);
        assert(a % 10 < b % 10);
        assert(x.take(1) =~= y.take(1));
        assert(0 <= 1 < x.len() && 1 < y.len() && x.take(1) == y.take(1) && (x[1] as u32) < (y[1] as u32));
    }
}

#[verifier::rlimit(40)]
pub proof fn lemma_four_digits_lt(a: nat, b: nat)
    requires
        1000 <= a < b < 10000,
    ensures
        text_lt(four_digits(a), four_digits(b)),
{
    let x = four_digits(a);
    let y = four_digits(b);
    lemma_digit_code(a / 1000);
    lemma_digit_code(b / 1000);
    lemma_digit_code((a / 100) % 10);
    lemma_digit_code((b / 100) % 10);
    lemma_digit_code((a / 10) % 10);
    lemma_digit_code((b / 10) % 10);
    lemma_digit_code(a % 10);
    lemma_digit_code(b % 10);
    if a / 1000 < b / 1000 {
        assert(x.take(0) =~= y.take(0));
        assert(0 <= 0 < x.len() && 0 < y.len() && x.take(0) == y.take(0) && (x[0] as u32) < (y[0] as u32));
    } else if (a / 100) % 10 < (b / 100) % 10 {
        assert(a / 1000 == b / 1000);
        assert(x.take(1) =~= y.take(1));
        assert(0 <= 1 < x.len() && 1 < y.len() && x.take(1) == y.take(1) && (x[1] as u32) < (y[1] as u32));
    } else if (a / 10) % 10 < (b / 10) % 10 {
        assert(a / 1000 == b / 1000);
        assert(a / 100 == b / 100) by (nonlinear_arith)
            requires
                a / 1000 == b / 1000,
                (a / 100) % 10 >= (b / 100) % 10,
                a < b,
        ;
        assert(x.take(2) =~= y.take(2));
        assert(0 <= 2 < x.len() && 2 < y.len() && x.take(2) == y.take(2) && (x[2] as u32) < (y[2] as u32));
    } else {
        assert(a / 1000 == b / 1000);
        assert(a / 100 == b / 100) by (nonlinear_arith)
            requires
                a / 1000 == b / 1000,
                (a / 100) % 10 >= (b / 100) % 10,
                a < b,
        ;
        assert(a / 10 == b / 10) by (nonlinear_arith)
            requires
                a / 100 == b / 100,
                (a / 10) % 10 >= (b / 10) % 10,
                a < b,
        ;
        assert(a % 10 < b % 10) by (nonlinear_arith)
            requires
                a / 10 == b / 10,
                a < b,
        ;
        assert(x.take(3) =~= y.take(3));
        assert(0 <= 3 < x.len() && 3 < y.len() && x.take(3) == y.take(3) && (x[3] as u32) < (y[3] as u32));
    }
}


/// The number of times `c` occurs in `s`.
pub open spec fn char_count(s: Seq<char>, c: char) -> nat
    decreases s.len(),
{
    if s.len() == 0 {
        0
    } else {
        char_count(s.drop_last(), c) + if s.last() == c {
            1nat
        } else {
            0nat
        }
    }
}

/// Whether `part` stands somewhere in `s`.
pub open spec fn occurs_in(part: Seq<char>, s: Seq<char>) -> bool {
    exists|i: int| 0 <= i && i + part.len() <= s.len() && #[trigger] s.subrange(i, i + part.len()) == part
}

pub proof fn lemma_char_count_concat(a: Seq<char>, b: Seq<char>, c: char)
    ensures
        char_count(a + b, c) == char_count(a, c) + char_count(b, c),
    decreases b.len(),
{
    if b.len() == 0 {
        assert(a + b =~= a);
    } else {
        lemma_char_count_concat(a, b.drop_last(), c);
        assert((a + b).drop_last() =~= a + b.drop_last());
        assert((a + b).last() == b.last());
    }
}

/// A decimal numeral holds ASCII digits only.
proof fn lemma_decimal_count(n: nat, c: char)
    requires
        c as u32 >= 128,
    ensures
        char_count(decimal(n), c) == 0,
    decreases n,
{
    let d = decimal(n);
    let k = n % 10;
    assert((((k + 48) as u8) as char) as u32 == k + 48);
    assert(digit_char(k) != c);
    if n < 10 {
        assert(k == n);
        assert(d.drop_last() =~= Seq::<char>::empty());
        assert(d.last() == digit_char(n));
        assert(char_count(Seq::<char>::empty(), c) == 0);
    } else {
        lemma_decimal_count(n / 10, c);
        assert(d.drop_last() =~= decimal(n / 10));
        assert(d.last() == digit_char(k));
    }
}

proof fn lemma_group_thousands_count(ds: Seq<char>, c: char)
    requires
        c != ',',
    ensures
        char_count(group_thousands(ds), c) == char_count(ds, c),
    decreases ds.len(),
{
    if ds.len() > 3 {
        let front = ds.subrange(0, ds.len() - 3);
        let back = ds.subrange(ds.len() - 3, ds.len() as int);
        lemma_group_thousands_count(front, c);
        assert(group_thousands(ds) == group_thousands(front) + seq![','] + back);
        lemma_char_count_concat(group_thousands(front) + seq![','], back, c);
        lemma_char_count_concat(group_thousands(front), seq![','], c);
        assert(seq![','].drop_last() =~= Seq::<char>::empty());
        assert(char_count(Seq::<char>::empty(), c) == 0);
        assert(char_count(seq![','], c) == 0);
        lemma_char_count_concat(front, back, c);
        assert(front + back =~= ds);
    }
}

/// A numeral with thousands separators holds ASCII digits and commas only,
/// so no other character occurs in it.
pub proof fn lemma_grouped_decimal_count(n: nat, c: char)
    requires
        c as u32 >= 128,
    ensures
        char_count(grouped_decimal(n), c) == 0,
{
    lemma_decimal_count(n, c);
    lemma_group_thousands_count(decimal(n), c);
}

/// The occurrences of `c` in the items of `parts`, all together.
pub open spec fn parts_char_count(parts: Seq<Seq<char>>, c: char) -> nat
    decreases parts.len(),
{
    if parts.len() == 0 {
        0
    } else {
        parts_char_count(parts.drop_last(), c) + char_count(parts.last(), c)
    }
}

pub proof fn lemma_parts_char_count_concat(a: Seq<Seq<char>>, b: Seq<Seq<char>>, c: char)
    ensures
        parts_char_count(a + b, c) == parts_char_count(a, c) + parts_char_count(b, c),
    decreases b.len(),
{
    if b.len() == 0 {
        assert(a + b =~= a);
    } else {
        lemma_parts_char_count_concat(a, b.drop_last(), c);
        assert((a + b).drop_last() =~= a + b.drop_last());
        assert((a + b).last() == b.last());
    }
}

/// Where `c` does not occur in the separator, it occurs in the joined text
/// as often as in the items.
pub proof fn lemma_join_char_count(parts: Seq<Seq<char>>, sep: Seq<char>, c: char)
    requires
        char_count(sep, c) == 0,
    ensures
        char_count(join(parts, sep), c) == parts_char_count(parts, c),
    decreases parts.len(),
{
    assert(char_count(Seq::<char>::empty(), c) == 0);
    if parts.len() == 0 {
        assert(join(parts, sep) == Seq::<char>::empty());
    } else if parts.len() == 1 {
        assert(parts.drop_last() =~= Seq::<Seq<char>>::empty());
        assert(parts_char_count(parts.drop_last(), c) == 0);
        assert(parts.last() == parts[0]);
        assert(join(parts, sep) == parts[0]);
    } else {
        lemma_join_char_count(parts.drop_last(), sep, c);
        assert(join(parts, sep) == join(parts.drop_last(), sep) + sep + parts.last());
        lemma_char_count_concat(join(parts.drop_last(), sep) + sep, parts.last(), c);
        lemma_char_count_concat(join(parts.drop_last(), sep), sep, c);
    }
}

/// In `join(parts, sep) + end`, each item stands followed by the separator,
/// or by `end` for the last.
pub proof fn lemma_join_occurs(parts: Seq<Seq<char>>, sep: Seq<char>, end: Seq<char>, k: int)
    requires
        0 <= k < parts.len(),
    ensures
        occurs_in(parts[k] + if k + 1 == parts.len() { end } else { sep }, join(parts, sep) + end),
    decreases parts.len(),
{
    let s = join(parts, sep) + end;
    let x = parts[k] + if k + 1 == parts.len() { end } else { sep };
    if parts.len() == 1 {
        assert(join(parts, sep) == parts[0]);
        let i: int = 0;
        assert(s.subrange(i, i + x.len()) =~= x);
    } else if k + 1 == parts.len() {
        let j = join(parts.drop_last(), sep) + sep;
        assert(join(parts, sep) == join(parts.drop_last(), sep) + sep + parts.last());
        assert(s =~= j + x);
        let i: int = j.len() as int;
        assert(s.subrange(i, i + x.len()) =~= x);
    } else {
        let dl = parts.drop_last();
        lemma_join_occurs(dl, sep, sep, k);
        assert(dl[k] == parts[k]);
        assert(x == dl[k] + if k + 1 == dl.len() { sep } else { sep });
        let t = join(dl, sep) + sep;
        let i = choose|i: int| 0 <= i && i + x.len() <= t.len() && #[trigger] t.subrange(i, i + x.len()) == x;
        assert(join(parts, sep) == join(dl, sep) + sep + parts.last());
        assert(s =~= t + (parts.last() + end));
        assert(s.subrange(i, i + x.len()) =~= t.subrange(i, i + x.len()));
    }
}

pub proof fn lemma_occurs_extend(x: Seq<char>, t: Seq<char>, u: Seq<char>)
    requires
        occurs_in(x, t),
    ensures
        occurs_in(x, t + u),
{
    let i = choose|i: int| 0 <= i && i + x.len() <= t.len() && #[trigger] t.subrange(i, i + x.len()) == x;
    assert((t + u).subrange(i, i + x.len()) =~= t.subrange(i, i + x.len()));
}

/// In `join(parts, sep) + end`, each item but the last stands followed by
/// the separator and the next item.
pub proof fn lemma_join_adjacent(parts: Seq<Seq<char>>, sep: Seq<char>, end: Seq<char>, k: int)
    requires
        0 <= k,
        k + 1 < parts.len(),
    ensures
        occurs_in(parts[k] + sep + parts[k + 1], join(parts, sep) + end),
    decreases parts.len(),
{
    let dl = parts.drop_last();
    let x = parts[k] + sep + parts[k + 1];
    assert(join(parts, sep) == join(dl, sep) + sep + parts.last());
    if k + 2 == parts.len() {
        let front = if dl.len() == 1 {
            Seq::<char>::empty()
        } else {
            join(dl.drop_last(), sep) + sep
        };
        if dl.len() == 1 {
            assert(join(dl, sep) == dl[0]);
        } else {
            assert(join(dl, sep) == join(dl.drop_last(), sep) + sep + dl.last());
        }
        assert(dl.last() == parts[k]);
        assert(join(parts, sep) + end =~= front + x + end);
        let i: int = front.len() as int;
        assert((join(parts, sep) + end).subrange(i, i + x.len()) =~= x);
    } else {
        lemma_join_adjacent(dl, sep, Seq::<char>::empty(), k);
        assert(dl[k] == parts[k] && dl[k + 1] == parts[k + 1]);
        assert(join(dl, sep) + Seq::<char>::empty() =~= join(dl, sep));
        lemma_occurs_extend(x, join(dl, sep), sep + parts.last() + end);
        assert(join(dl, sep) + (sep + parts.last() + end) =~= join(parts, sep) + end);
    }
}

/// Whatever stands between two texts occurs in their concatenation.
pub proof fn lemma_occurs_middle(a: Seq<char>, x: Seq<char>, b: Seq<char>)
    ensures
        occurs_in(x, a + x + b),
{
    let i: int = a.len() as int;
    assert((a + x + b).subrange(i, i + x.len()) =~= x);
}

/// What occurs in a text occurs in any text around it.
pub proof fn lemma_occurs_within(x: Seq<char>, a: Seq<char>, t: Seq<char>, b: Seq<char>)
    requires
        occurs_in(x, t),
    ensures
        occurs_in(x, a + t + b),
{
    let i = choose|i: int| 0 <= i && i + x.len() <= t.len() && #[trigger] t.subrange(i, i + x.len()) == x;
    let k: int = a.len() + i;
    assert((a + t + b).subrange(k, k + x.len()) =~= t.subrange(i, i + x.len()));
}

/// Where a text occurs, so does each of its prefixes.
pub proof fn lemma_occurs_prefix(x: Seq<char>, y: Seq<char>, s: Seq<char>)
    requires
        x.is_prefix_of(y),
        occurs_in(y, s),
    ensures
        occurs_in(x, s),
{
    let i = choose|i: int| 0 <= i && i + y.len() <= s.len() && #[trigger] s.subrange(i, i + y.len()) == y;
    assert(s.subrange(i, i + x.len()) =~= y.subrange(0, x.len() as int));
}
} // verus!
