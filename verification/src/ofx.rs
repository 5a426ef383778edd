//! Reading OFX/QFX bank statements: the ledger balance and the transactions.
//!
//! An OFX file in its SGML form writes a value as `<TAG>value`, where the
//! value runs to the next `<`; a transaction is written between
//! `<STMTTRN>` and `</STMTTRN>`.

use crate::date::{epoch_date, is_valid_ymd, naive_date_default, CalendarDate};
use crate::sorting::{
    is_stable_sort, is_total_order, lemma_stable_sort_keeps_items, lemma_stable_sort_unique,
    stable_sort, views_of, SortKey,
};
use crate::text::{
    chars_le, chars_of, copy_range, digit_char, find_from, first_occurrence, four_digits,
    is_white_space, lemma_first_occurrence, lemma_seq_le_antisymmetric, lemma_seq_le_total,
    lemma_seq_le_transitive, lemma_trim_shape, nat_text, occurs_at, seq_le, string_from_chars,
    trim, trim_chars, two_digits,
};
use vstd::prelude::*;

verus! {

broadcast use vstd::seq_lib::group_seq_properties;

// ---------------------------------------------------------------------
// Tag values

/// The value written after the first `<tag>` in `block`: what follows the
/// tag up to the next `<` (or the end), without white space at either end.
pub open spec fn tag_value(block: Seq<char>, tag: Seq<char>) -> Option<Seq<char>> {
    let open = seq!['<'] + tag + seq!['>'];
    match first_occurrence(block, open, 0) {
        Some(i) => {
            let start = i + open.len();
            Some(trim(block.subrange(start, value_end(block, start))))
        },
        None => None,
    }
}

/// Where a value that starts at `start` ends: at the next `<`, or at the end.
pub open spec fn value_end(block: Seq<char>, start: int) -> int {
    match first_occurrence(block, seq!['<'], start) {
        Some(j) => j,
        None => block.len() as int,
    }
}

/// The characters of an optional string.
pub open spec fn opt_chars(o: Option<String>) -> Option<Seq<char>> {
    match o {
        Some(s) => Some(s@),
        None => None,
    }
}

/// The value, or the empty text where there is none.
pub open spec fn or_empty(o: Option<Seq<char>>) -> Seq<char> {
    match o {
        Some(s) => s,
        None => Seq::empty(),
    }
}

/// A value read after a tag holds no `<` and has no white space at either
/// end.
pub proof fn lemma_tag_value_clean(block: Seq<char>, tag: Seq<char>)
    ensures
        tag_value(block, tag) matches Some(v) ==> {
            &&& forall|i: int| 0 <= i < v.len() ==> #[trigger] v[i] != '<'
            &&& v.len() > 0 ==> !is_white_space(v[0]) && !is_white_space(v.last())
        },
{
    let open = seq!['<'] + tag + seq!['>'];
    lemma_first_occurrence(block, open, 0);
    if let Some(i) = first_occurrence(block, open, 0) {
        let start = i + open.len();
        let end = value_end(block, start);
        lemma_first_occurrence(block, seq!['<'], start);
        assert(start <= end <= block.len());
        let raw = block.subrange(start, end);
        assert forall|j: int| 0 <= j < raw.len() implies #[trigger] raw[j] != '<' by {
            assert(raw[j] == block[start + j]);
            if raw[j] == '<' {
                assert(block.subrange(start + j, start + j + 1) =~= seq!['<']);
                assert(occurs_at(block, seq!['<'], start + j));
            }
        }
        let (a, b) = lemma_trim_shape(raw);
        let v = trim(raw);
        assert forall|j: int| 0 <= j < v.len() implies #[trigger] v[j] != '<' by {
            assert(v[j] == raw[a + j]);
        }
    }
}

fn tag_value_chars(block: &Vec<char>, tag: &Vec<char>) -> (r: Option<Vec<char>>)
    ensures
        r matches Some(v) ==> tag_value(block@, tag@) == Some(v@),
        r is None ==> tag_value(block@, tag@) is None,
{
    let mut open: Vec<char> = Vec::new();
    open.push('<');
    let mut k: usize = 0;
    while k < tag.len()
        invariant
            k <= tag.len(),
            open@ == seq!['<'] + tag@.take(k as int),
        decreases tag.len() - k,
    {
        open.push(tag[k]);
        k += 1;
        assert(open@ =~= seq!['<'] + tag@.take(k as int));
    }
    open.push('>');
    assert(open@ =~= seq!['<'] + tag@ + seq!['>']);
    match find_from(block, &open, 0) {
        None => None,
        Some(i) => {
            let start = i + open.len();
            let lt: Vec<char> = vec!['<'];
            assert(lt@ =~= seq!['<']);
            let end = match find_from(block, &lt, start) {
                Some(j) => {
                    proof {
                        lemma_first_occurrence(block@, lt@, start as int);
                    }
                    j
                },
                None => block.len(),
            };
            let raw = copy_range(block, start, end);
            Some(trim_chars(&raw))
        },
    }
}

/// The value written after the first `<tag>` in `block`, trimmed.
pub fn extract_tag(block: &str, tag: &str) -> (r: Option<String>)
    ensures
        opt_chars(r) == tag_value(block@, tag@),
{
    let b = chars_of(block);
    let t = chars_of(tag);
    match tag_value_chars(&b, &t) {
        Some(v) => Some(string_from_chars(&v)),
        None => None,
    }
}

// ---------------------------------------------------------------------
// Digits

pub open spec fn is_ascii_digit(c: char) -> bool {
    '0' <= c <= '9'
}

pub open spec fn digit_value(c: char) -> int {
    (c as u32) - ('0' as u32)
}

/// The number that a run of decimal digits writes.
pub open spec fn digits_value(s: Seq<char>) -> int
    decreases s.len(),
{
    if s.len() == 0 {
        0
    } else {
        10 * digits_value(s.drop_last()) + digit_value(s.last())
    }
}

/// The decimal digits of `s`, in order.
pub open spec fn digits_of(s: Seq<char>) -> Seq<char>
    decreases s.len(),
{
    if s.len() == 0 {
        s
    } else if is_ascii_digit(s.last()) {
        digits_of(s.drop_last()).push(s.last())
    } else {
        digits_of(s.drop_last())
    }
}

pub open spec fn all_digits(s: Seq<char>) -> bool {
    forall|i: int| 0 <= i < s.len() ==> is_ascii_digit(#[trigger] s[i])
}

proof fn lemma_digits_of_all_digits(s: Seq<char>)
    ensures
        all_digits(digits_of(s)),
        digits_of(s).len() <= s.len(),
    decreases s.len(),
{
    if s.len() > 0 {
        lemma_digits_of_all_digits(s.drop_last());
    }
}

pub open spec fn pow10(n: nat) -> int
    decreases n,
{
    if n == 0 {
        1
    } else {
        10 * pow10((n - 1) as nat)
    }
}

proof fn lemma_digits_value_bounds(s: Seq<char>)
    requires
        all_digits(s),
    ensures
        0 <= digits_value(s) < pow10(s.len()),
    decreases s.len(),
{
    if s.len() > 0 {
        assert(all_digits(s.drop_last())) by {
            assert forall|i: int| 0 <= i < s.drop_last().len() implies is_ascii_digit(
                #[trigger] s.drop_last()[i],
            ) by {
                assert(s.drop_last()[i] == s[i]);
            }
        }
        lemma_digits_value_bounds(s.drop_last());
        assert(is_ascii_digit(s[s.len() - 1]));
    }
}

fn digit_at(v: &Vec<char>, i: usize) -> (r: u32)
    requires
        i < v.len(),
        is_ascii_digit(v@[i as int]),
    ensures
        r == digit_value(v@[i as int]),
        r < 10,
{
    (v[i] as u32) - ('0' as u32)
}

fn digits_of_chars(s: &Vec<char>) -> (r: Vec<char>)
    ensures
        r@ == digits_of(s@),
{
    let mut d: Vec<char> = Vec::new();
    let mut i: usize = 0;
    while i < s.len()
        invariant
            i <= s.len(),
            d@ == digits_of(s@.take(i as int)),
        decreases s.len() - i,
    {
        assert(s@.take(i + 1).drop_last() =~= s@.take(i as int));
        if '0' <= s[i] && s[i] <= '9' {
            d.push(s[i]);
        }
        i += 1;
    }
    assert(s@.take(s.len() as int) =~= s@);
    d
}

/// The number written by two or four digits of `d` from `from`.
fn small_number(d: &Vec<char>, from: usize, len: usize) -> (r: u32)
    requires
        len == 2 || len == 4,
        from + len <= d.len(),
        all_digits(d@),
    ensures
        r == digits_value(d@.subrange(from as int, from + len)),
{
    let ghost s = d@.subrange(from as int, from + len);
    proof {
        reveal_with_fuel(digits_value, 5);
        assert(s.drop_last() =~= d@.subrange(from as int, from + len - 1));
        assert(s.drop_last().drop_last() =~= d@.subrange(from as int, from + len - 2));
        if len == 4 {
            assert(s.drop_last().drop_last().drop_last() =~= d@.subrange(from as int, from + 1));
            assert(s.drop_last().drop_last().drop_last().drop_last() =~= d@.subrange(
                from as int,
                from as int,
            ));
        } else {
            assert(s.drop_last().drop_last().len() == 0);
        }
    }
    let a = digit_at(d, from);
    let b = digit_at(d, from + 1);
    if len == 2 {
        a * 10 + b
    } else {
        let c = digit_at(d, from + 2);
        let e = digit_at(d, from + 3);
        ((a * 10 + b) * 10 + c) * 10 + e
    }
}

// ---------------------------------------------------------------------
// Dates

/// The part of a date text that carries the date: the trimmed text up to
/// its first `[` (where a time zone such as `[-5:EST]` begins).
pub open spec fn date_text(s: Seq<char>) -> Seq<char> {
    let t = trim(s);
    match first_occurrence(t, seq!['['], 0) {
        Some(k) => t.subrange(0, k),
        None => t,
    }
}

/// The date that an OFX date text (`YYYYMMDD`, possibly followed by a time
/// and a time zone) gives: the first eight of its digits read as year,
/// month and day, where they make a date.
pub open spec fn ofx_date(s: Seq<char>) -> Option<CalendarDate> {
    let d = digits_of(date_text(s));
    if d.len() >= 8 {
        let y = digits_value(d.subrange(0, 4));
        let m = digits_value(d.subrange(4, 6));
        let day = digits_value(d.subrange(6, 8));
        if is_valid_ymd(y, m, day) {
            Some(CalendarDate { year: y as i32, month: m as u32, day: day as u32 })
        } else {
            None
        }
    } else {
        None
    }
}

fn date_from_chars(s: &Vec<char>) -> (r: Option<CalendarDate>)
    ensures
        r == ofx_date(s@),
{
    let t = trim_chars(s);
    let bracket: Vec<char> = vec!['['];
    assert(bracket@ =~= seq!['[']);
    let p = match find_from(&t, &bracket, 0) {
        Some(k) => copy_range(&t, 0, k),
        None => t,
    };
    let d = digits_of_chars(&p);
    proof {
        lemma_digits_of_all_digits(p@);
    }
    if d.len() >= 8 {
        let y = small_number(&d, 0, 4);
        let m = small_number(&d, 4, 2);
        let day = small_number(&d, 6, 2);
        proof {
            reveal_with_fuel(pow10, 5);
            lemma_digits_value_bounds(d@.subrange(0, 4));
        }
        CalendarDate::new(y as i32, m, day)
    } else {
        None
    }
}

/// The date of an OFX date text such as `20240115` or
/// `20240115120000[-5:EST]`.
pub fn parse_ofx_date(s: &str) -> (r: Option<CalendarDate>)
    ensures
        r == ofx_date(s@),
{
    let v = chars_of(s);
    date_from_chars(&v)
}

// ---------------------------------------------------------------------
// Amounts

/// `s` without its commas (thousands separators).
pub open spec fn without_commas(s: Seq<char>) -> Seq<char>
    decreases s.len(),
{
    if s.len() == 0 {
        s
    } else if s.last() == ',' {
        without_commas(s.drop_last())
    } else {
        without_commas(s.drop_last()).push(s.last())
    }
}

/// The text of an amount as it is read: trimmed, then without commas.
pub open spec fn amount_text(s: Seq<char>) -> Seq<char> {
    without_commas(trim(s))
}

/// `c` is the ASCII letter `lower`, in either case.
pub open spec fn same_letter(c: char, lower: char) -> bool {
    c == lower || (c as u32) + 32 == (lower as u32)
}

/// `u` spells `word` (written in lower case), ignoring ASCII case.
pub open spec fn is_word(u: Seq<char>, word: Seq<char>) -> bool {
    u.len() == word.len() && forall|i: int| 0 <= i < u.len() ==> same_letter(#[trigger] u[i], word[i])
}

pub open spec fn word_inf() -> Seq<char> {
    seq!['i', 'n', 'f']
}

pub open spec fn word_infinity() -> Seq<char> {
    seq!['i', 'n', 'f', 'i', 'n', 'i', 't', 'y']
}

pub open spec fn word_nan() -> Seq<char> {
    seq!['n', 'a', 'n']
}

pub open spec fn is_exponent_mark(c: char) -> bool {
    c == 'e' || c == 'E'
}

/// The first position at or after `i` of an `e` or `E` in `u`.
pub open spec fn first_exponent_mark(u: Seq<char>, i: int) -> Option<int>
    decreases u.len() - i,
{
    if i < 0 || i >= u.len() {
        None
    } else if is_exponent_mark(u[i]) {
        Some(i)
    } else {
        first_exponent_mark(u, i + 1)
    }
}

/// The digits before and after the point of a mantissa: digits with at
/// most one `.` among them, and at least one digit in all.
pub open spec fn mantissa_digits(m: Seq<char>) -> Option<(Seq<char>, Seq<char>)> {
    match first_occurrence(m, seq!['.'], 0) {
        Some(k) => {
            let ip = m.subrange(0, k);
            let fp = m.subrange(k + 1, m.len() as int);
            if all_digits(ip) && all_digits(fp) && ip.len() + fp.len() > 0 {
                Some((ip, fp))
            } else {
                None
            }
        },
        None => if all_digits(m) && m.len() > 0 {
            Some((m, Seq::empty()))
        } else {
            None
        },
    }
}

/// The value of an exponent: an optional sign, then at least one digit.
pub open spec fn exponent_value(x: Seq<char>) -> Option<int> {
    let signed = x.len() > 0 && (x[0] == '-' || x[0] == '+');
    let d = if signed {
        x.drop_first()
    } else {
        x
    };
    if d.len() > 0 && all_digits(d) {
        Some(
            if x.len() > 0 && x[0] == '-' {
                -digits_value(d)
            } else {
                digits_value(d)
            },
        )
    } else {
        None
    }
}

/// An unsigned number, `digits[.digits][e[sign]digits]`, as its digits and
/// the position among them of the point that separates whole cents from
/// fractions of a cent (two places after the decimal point, moved by the
/// exponent).
pub open spec fn number_value(u: Seq<char>) -> Option<(Seq<char>, int)> {
    match first_exponent_mark(u, 0) {
        Some(k) => match (
            mantissa_digits(u.subrange(0, k)),
            exponent_value(u.subrange(k + 1, u.len() as int)),
        ) {
            (Some((ip, fp)), Some(e)) => Some((ip + fp, ip.len() + e + 2)),
            _ => None,
        },
        None => match mantissa_digits(u) {
            Some((ip, fp)) => Some((ip + fp, ip.len() + 2int)),
            None => None,
        },
    }
}

/// The first `p` digits of `w`, with zeros after its end where `p` goes
/// beyond it.
pub open spec fn padded_digits(w: Seq<char>, p: int) -> Seq<char> {
    if p <= w.len() {
        w.subrange(0, p)
    } else {
        w + Seq::new((p - w.len()) as nat, |i: int| '0')
    }
}

/// The whole cents of digits `w` with the cents point after `p` of them,
/// rounded half away from zero: the digit right after the point decides,
/// since those after it can bring a value up to, never onto, the next half.
pub open spec fn scaled_cents(w: Seq<char>, p: int) -> int {
    (if p <= 0 {
        0
    } else {
        digits_value(padded_digits(w, p))
    }) + (if 0 <= p < w.len() && digit_value(w[p]) >= 5 {
        1int
    } else {
        0int
    })
}

/// `v` held to the range of `i32`, as a saturating conversion holds it.
pub open spec fn saturate_i32(v: int) -> i32 {
    if v > i32::MAX {
        i32::MAX
    } else if v < i32::MIN {
        i32::MIN
    } else {
        v as i32
    }
}

/// The amount in cents that a decimal text such as `1,234.56`, `-50.25` or
/// `1.5e3` writes, rounded half away from zero to whole cents and held to
/// the range of `i32`; `inf` and `infinity` (in any case, with an optional
/// sign) give the end of the range on their side, `nan` gives 0; `None`
/// where the text is none of these.
pub open spec fn amount_cents(s: Seq<char>) -> Option<i32> {
    let t = amount_text(s);
    let negative = t.len() > 0 && t[0] == '-';
    let u = if t.len() > 0 && (t[0] == '-' || t[0] == '+') {
        t.drop_first()
    } else {
        t
    };
    if is_word(u, word_inf()) || is_word(u, word_infinity()) {
        Some(
            if negative {
                i32::MIN
            } else {
                i32::MAX
            },
        )
    } else if is_word(u, word_nan()) {
        Some(0)
    } else {
        match number_value(u) {
            Some((w, p)) => {
                let c = scaled_cents(w, p);
                Some(
                    saturate_i32(
                        if negative {
                            -c
                        } else {
                            c
                        },
                    ),
                )
            },
            None => None,
        }
    }
}

fn without_commas_chars(s: &Vec<char>) -> (r: Vec<char>)
    ensures
        r@ == without_commas(s@),
{
    let mut d: Vec<char> = Vec::new();
    let mut i: usize = 0;
    while i < s.len()
        invariant
            i <= s.len(),
            d@ == without_commas(s@.take(i as int)),
        decreases s.len() - i,
    {
        assert(s@.take(i + 1).drop_last() =~= s@.take(i as int));
        if s[i] != ',' {
            d.push(s[i]);
        }
        i += 1;
    }
    assert(s@.take(s.len() as int) =~= s@);
    d
}

fn all_digits_in(v: &Vec<char>, from: usize, to: usize) -> (r: bool)
    requires
        from <= to <= v.len(),
    ensures
        r == all_digits(v@.subrange(from as int, to as int)),
{
    let mut i = from;
    while i < to
        invariant
            from <= i <= to <= v.len(),
            all_digits(v@.subrange(from as int, i as int)),
        decreases to - i,
    {
        if !('0' <= v[i] && v[i] <= '9') {
            assert(v@.subrange(from as int, to as int)[i - from] == v@[i as int]);
            return false;
        }
        i += 1;
        assert forall|j: int| 0 <= j < i - from implies is_ascii_digit(
            #[trigger] v@.subrange(from as int, i as int)[j],
        ) by {
            if j < i - 1 - from {
                assert(v@.subrange(from as int, i - 1)[j] == v@.subrange(from as int, i as int)[j]);
            }
        }
    }
    true
}

fn same_letter_exec(c: char, lower: char) -> (r: bool)
    ensures
        r == same_letter(c, lower),
{
    c == lower || (c as u32) + 32 == (lower as u32)
}

fn word_matches(u: &Vec<char>, word: &Vec<char>) -> (r: bool)
    ensures
        r == is_word(u@, word@),
{
    if u.len() != word.len() {
        return false;
    }
    let mut i: usize = 0;
    while i < u.len()
        invariant
            i <= u.len() == word.len(),
            forall|j: int| 0 <= j < i ==> same_letter(#[trigger] u@[j], word@[j]),
        decreases u.len() - i,
    {
        if !same_letter_exec(u[i], word[i]) {
            return false;
        }
        i += 1;
    }
    true
}

fn find_exponent_mark(u: &Vec<char>) -> (r: Option<usize>)
    ensures
        r matches Some(k) ==> first_exponent_mark(u@, 0) == Some(k as int) && k < u.len(),
        r is None ==> first_exponent_mark(u@, 0) is None,
{
    let mut i: usize = 0;
    while i < u.len()
        invariant
            i <= u.len(),
            first_exponent_mark(u@, 0) == first_exponent_mark(u@, i as int),
        decreases u.len() - i,
    {
        if u[i] == 'e' || u[i] == 'E' {
            return Some(i);
        }
        i += 1;
    }
    None
}

/// The limit above which an exponent no longer matters: beyond it every
/// nonzero amount is past the range of `i32`, or below one cent.
pub const EXPONENT_CAP: u128 = 36_893_488_147_419_103_232;

/// The limit above which the whole cents no longer matter: they are past
/// the range of `i32`.
pub const WHOLE_CAP: u128 = 1_000_000_000_000;

pub open spec fn capped_at(v: int, cap: int) -> int {
    if v < cap {
        v
    } else {
        cap
    }
}

/// The number that the digits `v[from..to]` write, or `cap` where that
/// number is larger.
fn capped_number(v: &Vec<char>, from: usize, to: usize, cap: u128) -> (r: u128)
    requires
        from <= to <= v.len(),
        all_digits(v@.subrange(from as int, to as int)),
        cap <= EXPONENT_CAP,
    ensures
        r == capped_at(digits_value(v@.subrange(from as int, to as int)), cap as int),
{
    let mut acc: u128 = 0;
    let mut i = from;
    proof {
        assert(v@.subrange(from as int, from as int).len() == 0);
    }
    while i < to
        invariant
            from <= i <= to <= v.len(),
            cap <= EXPONENT_CAP,
            all_digits(v@.subrange(from as int, to as int)),
            acc == capped_at(digits_value(v@.subrange(from as int, i as int)), cap as int),
        decreases to - i,
    {
        let ghost before = v@.subrange(from as int, i as int);
        assert(v@.subrange(from as int, i + 1).drop_last() =~= before);
        assert(v@.subrange(from as int, i + 1).last() == v@[i as int]);
        assert(v@[i as int] == v@.subrange(from as int, to as int)[i - from]);
        assert(all_digits(before)) by {
            assert forall|j: int| 0 <= j < before.len() implies is_ascii_digit(
                #[trigger] before[j],
            ) by {
                assert(before[j] == v@.subrange(from as int, to as int)[j]);
            }
        }
        proof {
            lemma_digits_value_bounds(before);
        }
        let d = digit_at(v, i) as u128;
        if acc < cap {
            let next = acc * 10 + d;
            acc = if next < cap {
                next
            } else {
                cap
            };
        }
        i += 1;
    }
    acc
}

/// `pow10` grows with its exponent.
proof fn lemma_pow10_monotone(a: nat, b: nat)
    requires
        a <= b,
    ensures
        1 <= pow10(a) <= pow10(b),
    decreases b,
{
    if b > a {
        lemma_pow10_monotone(a, (b - 1) as nat);
    } else if a > 0 {
        lemma_pow10_monotone((a - 1) as nat, (a - 1) as nat);
    }
}

/// The value of digits written one after the other.
proof fn lemma_digits_value_concat(a: Seq<char>, b: Seq<char>)
    ensures
        digits_value(a + b) == digits_value(a) * pow10(b.len()) + digits_value(b),
    decreases b.len(),
{
    if b.len() == 0 {
        assert(a + b =~= a);
    } else {
        lemma_digits_value_concat(a, b.drop_last());
        assert((a + b).drop_last() =~= a + b.drop_last());
        assert((a + b).last() == b.last());
        let x = digits_value(a);
        let y = pow10(b.drop_last().len());
        assert(10 * (x * y) == x * (10 * y)) by (nonlinear_arith);
    }
}

proof fn lemma_padded_digits(w: Seq<char>, p: int)
    requires
        all_digits(w),
        0 <= p,
    ensures
        padded_digits(w, p).len() == p,
        all_digits(padded_digits(w, p)),
        forall|i: int| 0 <= i < p && i < w.len() ==> #[trigger] padded_digits(w, p)[i] == w[i],
        forall|i: int| w.len() <= i < p ==> #[trigger] padded_digits(w, p)[i] == '0',
{
    let s = padded_digits(w, p);
    assert forall|i: int| 0 <= i < s.len() implies is_ascii_digit(#[trigger] s[i]) by {
        if i < w.len() {
            assert(s[i] == w[i]);
        }
    }
}

/// Digits that go on for at least twelve places after a nonzero digit write
/// at least 10^12.
proof fn lemma_long_digits_large(w: Seq<char>, z: int, p: int)
    requires
        all_digits(w),
        0 <= z < w.len(),
        w[z] != '0',
        p >= z + 13,
    ensures
        digits_value(padded_digits(w, p)) >= WHOLE_CAP,
{
    let s = padded_digits(w, p);
    lemma_padded_digits(w, p);
    let a = s.subrange(0, z + 1);
    let b = s.subrange(z + 1, p);
    assert(s =~= a + b);
    lemma_digits_value_concat(a, b);
    assert(all_digits(a)) by {
        assert forall|i: int| 0 <= i < a.len() implies is_ascii_digit(#[trigger] a[i]) by {
            assert(a[i] == s[i]);
        }
    }
    assert(all_digits(b)) by {
        assert forall|i: int| 0 <= i < b.len() implies is_ascii_digit(#[trigger] b[i]) by {
            assert(b[i] == s[z + 1 + i]);
        }
    }
    assert(all_digits(a.drop_last())) by {
        assert forall|i: int| 0 <= i < a.drop_last().len() implies is_ascii_digit(
            #[trigger] a.drop_last()[i],
        ) by {
            assert(a.drop_last()[i] == a[i]);
        }
    }
    lemma_digits_value_bounds(a.drop_last());
    lemma_digits_value_bounds(b);
    assert(a.last() == w[z]);
    assert(is_ascii_digit(w[z]));
    assert(digits_value(a) >= 1);
    lemma_pow10_monotone(12, b.len());
    reveal_with_fuel(pow10, 13);
    let x = digits_value(a);
    let y = pow10(b.len());
    assert(x * y >= y) by (nonlinear_arith)
        requires
            x >= 1,
            y >= 0,
    ;
}

/// Digits that are all zeros write 0, however they are cut or padded.
proof fn lemma_zero_digits(w: Seq<char>, p: int)
    requires
        forall|i: int| 0 <= i < w.len() ==> #[trigger] w[i] == '0',
        0 <= p,
    ensures
        digits_value(padded_digits(w, p)) == 0,
{
    let s = padded_digits(w, p);
    assert forall|i: int| 0 <= i < s.len() implies #[trigger] s[i] == '0' by {
        if i < w.len() {
            assert(s[i] == w[i]);
        }
    }
    lemma_zeros_value(s);
}

/// The first digit of `w` that is not `0`, where there is one.
fn first_nonzero(w: &Vec<char>) -> (r: Option<usize>)
    ensures
        r matches Some(z) ==> z < w.len() && w@[z as int] != '0' && forall|i: int|
            0 <= i < z ==> #[trigger] w@[i] == '0',
        r is None ==> forall|i: int| 0 <= i < w.len() ==> #[trigger] w@[i] == '0',
{
    let mut i: usize = 0;
    while i < w.len()
        invariant
            i <= w.len(),
            forall|j: int| 0 <= j < i ==> #[trigger] w@[j] == '0',
        decreases w.len() - i,
    {
        if w[i] != '0' {
            return Some(i);
        }
        i += 1;
    }
    None
}

/// The number that the first `p` digits of `w` write, zeros added after
/// its end where `p` goes beyond it, or `WHOLE_CAP` where that is larger.
fn padded_number(w: &Vec<char>, p: i128) -> (r: u128)
    requires
        all_digits(w@),
        0 < p <= w.len() + 12,
    ensures
        r == capped_at(digits_value(padded_digits(w@, p as int)), WHOLE_CAP as int),
{
    if p <= w.len() as i128 {
        return capped_number(w, 0, p as usize, WHOLE_CAP);
    }
    proof {
        assert(w@.subrange(0, w.len() as int) =~= w@);
        lemma_digits_value_bounds(w@);
    }
    let mut acc = capped_number(w, 0, w.len(), WHOLE_CAP);
    let extra = (p - w.len() as i128) as u32;
    let mut j: u32 = 0;
    while j < extra
        invariant
            j <= extra <= 12,
            digits_value(w@) >= 0,
            acc == capped_at(digits_value(w@) * pow10(j as nat), WHOLE_CAP as int),
        decreases extra - j,
    {
        let ghost v = digits_value(w@) * pow10(j as nat);
        proof {
            lemma_pow10_monotone(0, j as nat);
            assert(digits_value(w@) * pow10((j + 1) as nat) == 10 * v) by (nonlinear_arith)
                requires
                    v == digits_value(w@) * pow10(j as nat),
                    pow10((j + 1) as nat) == 10 * pow10(j as nat),
            ;
            assert(v >= 0) by (nonlinear_arith)
                requires
                    v == digits_value(w@) * pow10(j as nat),
                    digits_value(w@) >= 0,
                    pow10(j as nat) >= 1,
            ;
        }
        if acc < WHOLE_CAP {
            let next = acc * 10;
            acc = if next < WHOLE_CAP {
                next
            } else {
                WHOLE_CAP
            };
        }
        j += 1;
    }
    proof {
        let zeros = Seq::new(extra as nat, |i: int| '0');
        assert(padded_digits(w@, p as int) =~= w@ + zeros);
        lemma_digits_value_concat(w@, zeros);
        lemma_zeros_value(zeros);
    }
    acc
}

/// An exponent as it is computed: the exact one, or `EXPONENT_CAP` on its
/// side where the exact one is beyond it.
pub open spec fn capped_exponent(exact: int, computed: int) -> bool {
    &&& -(EXPONENT_CAP as int) < exact < EXPONENT_CAP ==> computed == exact
    &&& exact >= EXPONENT_CAP ==> computed == EXPONENT_CAP
    &&& exact <= -(EXPONENT_CAP as int) ==> computed == -(EXPONENT_CAP as int)
}

/// The exponent that `x` writes (held to `EXPONENT_CAP`), where it writes
/// one.
fn parse_exponent(x: &Vec<char>) -> (r: Option<i128>)
    ensures
        exponent_value(x@) is None ==> r is None,
        exponent_value(x@) matches Some(e) ==> (r matches Some(c) && capped_exponent(e, c as int)),
{
    let mut negative = false;
    let mut ds: usize = 0;
    if x.len() > 0 && (x[0] == '-' || x[0] == '+') {
        negative = x[0] == '-';
        ds = 1;
    }
    proof {
        if ds == 1 {
            assert(x@.drop_first() =~= x@.subrange(1, x.len() as int));
        } else {
            assert(x@ =~= x@.subrange(0, x.len() as int));
        }
    }
    if ds >= x.len() || !all_digits_in(x, ds, x.len()) {
        return None;
    }
    let magnitude = capped_number(x, ds, x.len(), EXPONENT_CAP);
    proof {
        lemma_digits_value_bounds(x@.subrange(ds as int, x.len() as int));
    }
    if negative {
        Some(0 - (magnitude as i128))
    } else {
        Some(magnitude as i128)
    }
}

/// The digits of a mantissa, those after its point following those before,
/// and how many come before it.
fn parse_mantissa(m: &Vec<char>) -> (r: Option<(Vec<char>, usize)>)
    ensures
        mantissa_digits(m@) is None ==> r is None,
        mantissa_digits(m@) matches Some((ip, fp)) ==> (r matches Some((w, n)) && w@ == ip + fp
            && n == ip.len()),
{
    let dot: Vec<char> = vec!['.'];
    assert(dot@ =~= seq!['.']);
    let (ip_end, fp_start) = match find_from(m, &dot, 0) {
        Some(k) => (k, k + 1),
        None => (m.len(), m.len()),
    };
    if !all_digits_in(m, 0, ip_end) || !all_digits_in(m, fp_start, m.len()) || ip_end + (m.len()
        - fp_start) == 0 {
        proof {
            assert(ip_end == m.len() ==> m@.subrange(0, ip_end as int) =~= m@);
        }
        return None;
    }
    let ghost ip = m@.subrange(0, ip_end as int);
    let ghost fp = m@.subrange(fp_start as int, m.len() as int);
    assert(ip_end == m.len() ==> ip =~= m@);
    assert(fp_start == m.len() ==> fp =~= Seq::<char>::empty());
    let mut w = copy_range(m, 0, ip_end);
    let fraction = copy_range(m, fp_start, m.len());
    let mut k: usize = 0;
    while k < fraction.len()
        invariant
            k <= fraction.len(),
            w@ == ip + fraction@.take(k as int),
            fraction@ == fp,
        decreases fraction.len() - k,
    {
        w.push(fraction[k]);
        k += 1;
        assert(w@ =~= ip + fraction@.take(k as int));
    }
    assert(fraction@.take(fraction.len() as int) =~= fp);
    Some((w, ip_end))
}

/// The whole cents of digits `w` whose cents point lies `exponent + 2`
/// places after the first `ip_len` of them, or `WHOLE_CAP` where they are
/// more; `exponent` is the exact exponent `exact`, or held to
/// `EXPONENT_CAP`.
fn digits_cents(w: &Vec<char>, ip_len: usize, exponent: i128, Ghost(exact): Ghost<int>) -> (r:
    u128)
    requires
        all_digits(w@),
        ip_len <= w.len(),
        capped_exponent(exact, exponent as int),
    ensures
        r == capped_at(scaled_cents(w@, ip_len + exact + 2), WHOLE_CAP as int),
{
    let ghost p_exact = ip_len + exact + 2;
    let z = match first_nonzero(w) {
        None => {
            proof {
                if p_exact > 0 {
                    lemma_zero_digits(w@, p_exact);
                }
            }
            return 0;
        },
        Some(z) => z,
    };
    let p: i128 = ip_len as i128 + exponent + 2;
    if p >= z as i128 + 13 {
        proof {
            lemma_long_digits_large(w@, z as int, p_exact);
            lemma_scaled_cents_nonnegative(w@, p_exact);
        }
        return WHOLE_CAP;
    }
    assert(p == p_exact || (p < 0 && p_exact < 0));
    let whole: u128 = if p <= 0 {
        0
    } else {
        padded_number(w, p)
    };
    let round_up: u128 = if 0 <= p && p < w.len() as i128 && digit_at(w, p as usize) >= 5 {
        1
    } else {
        0
    };
    proof {
        if p > 0 {
            lemma_padded_digits(w@, p_exact);
            lemma_digits_value_bounds(padded_digits(w@, p_exact));
        }
    }
    let total = whole + round_up;
    if total < WHOLE_CAP {
        total
    } else {
        WHOLE_CAP
    }
}

fn cents_from_chars(s: &Vec<char>) -> (r: Option<i32>)
    ensures
        r == amount_cents(s@),
{
    let t0 = trim_chars(s);
    let t = without_commas_chars(&t0);
    let mut negative = false;
    let mut from: usize = 0;
    if t.len() > 0 && (t[0] == '-' || t[0] == '+') {
        negative = t[0] == '-';
        from = 1;
    }
    let u = copy_range(&t, from, t.len());
    assert(from == 1 ==> u@ =~= t@.drop_first());
    assert(from == 0 ==> u@ =~= t@);
    let inf: Vec<char> = vec!['i', 'n', 'f'];
    let infinity: Vec<char> = vec!['i', 'n', 'f', 'i', 'n', 'i', 't', 'y'];
    let nan: Vec<char> = vec!['n', 'a', 'n'];
    assert(inf@ =~= word_inf());
    assert(infinity@ =~= word_infinity());
    assert(nan@ =~= word_nan());
    if word_matches(&u, &inf) || word_matches(&u, &infinity) {
        return Some(
            if negative {
                i32::MIN
            } else {
                i32::MAX
            },
        );
    }
    if word_matches(&u, &nan) {
        return Some(0);
    }
    let ghost mut exact: int = 0;
    let (m_end, exponent) = match find_exponent_mark(&u) {
        Some(k) => {
            let x = copy_range(&u, k + 1, u.len());
            match parse_exponent(&x) {
                None => {
                    return None;
                },
                Some(e) => {
                    proof {
                        exact = exponent_value(x@)->0;
                    }
                    (k, e)
                },
            }
        },
        None => (u.len(), 0),
    };
    let m = copy_range(&u, 0, m_end);
    assert(m_end == u.len() ==> m@ =~= u@);
    let (w, ip_len) = match parse_mantissa(&m) {
        None => {
            return None;
        },
        Some(parsed) => parsed,
    };
    proof {
        let (ip, fp) = mantissa_digits(m@)->0;
        assert(number_value(u@) == Some((w@, ip_len + exact + 2)));
        assert(all_digits(w@)) by {
            assert forall|i: int| 0 <= i < w@.len() implies is_ascii_digit(#[trigger] w@[i]) by {
                if i < ip.len() {
                    assert(w@[i] == ip[i]);
                } else {
                    assert(w@[i] == fp[i - ip.len()]);
                }
            }
        }
    }
    let magnitude = digits_cents(&w, ip_len, exponent, Ghost(exact));
    proof {
        lemma_scaled_cents_nonnegative(w@, ip_len + exact + 2);
    }
    if negative {
        if magnitude > 2147483648 {
            Some(i32::MIN)
        } else {
            Some((0 - (magnitude as i64)) as i32)
        }
    } else {
        if magnitude > 2147483647 {
            Some(i32::MAX)
        } else {
            Some(magnitude as i32)
        }
    }
}

/// The amount in cents that a decimal text such as `1,234.56` writes,
/// rounded from the exact decimal value of the text, with no binary
/// floating point in between: `1.005` gives 101 cents.
pub fn parse_amount_cents(s: &str) -> (r: Option<i32>)
    ensures
        r == amount_cents(s@),
{
    let v = chars_of(s);
    cents_from_chars(&v)
}

// ---------------------------------------------------------------------
// Statements

/// One transaction of a statement.
#[derive(Debug)]
pub struct OFXTransaction {
    pub trntype: Option<String>,
    pub fitid: Option<String>,
    pub name: Option<String>,
    pub memo: Option<String>,
    pub date: CalendarDate,
    pub amount_cents: i32,
}

/// A statement: its transactions, ordered by their `FITID`, and the ledger
/// balance it states.
#[derive(Debug)]
pub struct OFXStatement {
    pub transactions: Vec<OFXTransaction>,
    pub balance_cents: i32,
}

/// What a transaction holds, its texts taken as character sequences.
pub struct OFXTransactionView {
    pub trntype: Option<Seq<char>>,
    pub fitid: Option<Seq<char>>,
    pub name: Option<Seq<char>>,
    pub memo: Option<Seq<char>>,
    pub date: CalendarDate,
    pub amount_cents: i32,
}

impl View for OFXTransaction {
    type V = OFXTransactionView;

    open spec fn view(&self) -> OFXTransactionView {
        OFXTransactionView {
            trntype: opt_chars(self.trntype),
            fitid: opt_chars(self.fitid),
            name: opt_chars(self.name),
            memo: opt_chars(self.memo),
            date: self.date,
            amount_cents: self.amount_cents,
        }
    }
}

pub open spec fn views(s: Seq<OFXTransaction>) -> Seq<OFXTransactionView> {
    views_of(s)
}

pub open spec fn stmt_open() -> Seq<char> {
    seq!['<', 'S', 'T', 'M', 'T', 'T', 'R', 'N', '>']
}

pub open spec fn stmt_close() -> Seq<char> {
    seq!['<', '/', 'S', 'T', 'M', 'T', 'T', 'R', 'N', '>']
}

/// The transaction blocks of `c` from `pos` on: each is what stands between
/// a `<STMTTRN>` and the first `</STMTTRN>` after it; the search goes on
/// after that closing tag, and stops at an opening tag that nothing closes.
pub open spec fn statement_blocks(c: Seq<char>, pos: int) -> Seq<Seq<char>>
    decreases c.len() - pos,
{
    if pos < 0 || pos > c.len() {
        Seq::empty()
    } else {
        match first_occurrence(c, stmt_open(), pos) {
            None => Seq::empty(),
            Some(o) => {
                proof {
                    lemma_first_occurrence(c, stmt_open(), pos);
                }
                match first_occurrence(c, stmt_close(), o + 9) {
                    None => Seq::empty(),
                    Some(cl) => {
                        proof {
                            lemma_first_occurrence(c, stmt_close(), o + 9);
                        }
                        seq![c.subrange(o + 9, cl)] + statement_blocks(c, cl + 10)
                    },
                }
            },
        }
    }
}

/// The transaction that a block describes. A missing or unreadable date
/// gives 1970-01-01, and a missing or unreadable amount gives 0.
pub open spec fn block_transaction(b: Seq<char>) -> OFXTransactionView {
    OFXTransactionView {
        trntype: tag_value(b, "TRNTYPE"@),
        fitid: tag_value(b, "FITID"@),
        name: tag_value(b, "NAME"@),
        memo: tag_value(b, "MEMO"@),
        date: match ofx_date(or_empty(tag_value(b, "DTPOSTED"@))) {
            Some(d) => d,
            None => epoch_date(),
        },
        amount_cents: match amount_cents(or_empty(tag_value(b, "TRNAMT"@))) {
            Some(v) => v,
            None => 0,
        },
    }
}

pub open spec fn block_transactions(bs: Seq<Seq<char>>) -> Seq<OFXTransactionView> {
    bs.map_values(|b: Seq<char>| block_transaction(b))
}

/// The ledger balance of a statement: the amount after its first
/// `<BALAMT>`, or 0 where there is none or it is unreadable.
pub open spec fn statement_balance(c: Seq<char>) -> i32 {
    match tag_value(c, "BALAMT"@) {
        Some(t) => match amount_cents(t) {
            Some(v) => v,
            None => 0,
        },
        None => 0,
    }
}

/// The order of `Option<String>`: no value first, then texts in `seq_le`
/// order.
pub open spec fn fitid_le(a: Option<Seq<char>>, b: Option<Seq<char>>) -> bool {
    match (a, b) {
        (None, _) => true,
        (Some(_), None) => false,
        (Some(x), Some(y)) => seq_le(x, y),
    }
}

pub open spec fn by_fitid() -> spec_fn(OFXTransactionView) -> Option<Seq<char>> {
    |t: OFXTransactionView| t.fitid
}

pub open spec fn fitid_order() -> spec_fn(Option<Seq<char>>, Option<Seq<char>>) -> bool {
    |a: Option<Seq<char>>, b: Option<Seq<char>>| fitid_le(a, b)
}

pub proof fn lemma_fitid_order_total()
    ensures
        is_total_order(fitid_order()),
{
    let le = fitid_order();
    assert forall|a: Option<Seq<char>>| #[trigger] le(a, a) by {
        if let Some(x) = a {
            lemma_seq_le_total(x, x);
        }
    }
    assert forall|a: Option<Seq<char>>, b: Option<Seq<char>>| #[trigger]
        le(a, b) || #[trigger] le(b, a) by {
        if let (Some(x), Some(y)) = (a, b) {
            lemma_seq_le_total(x, y);
        }
    }
    assert forall|a: Option<Seq<char>>, b: Option<Seq<char>>| #[trigger]
        le(a, b) && #[trigger] le(b, a) implies a == b by {
        if let (Some(x), Some(y)) = (a, b) {
            lemma_seq_le_antisymmetric(x, y);
        }
    }
    assert forall|a: Option<Seq<char>>, b: Option<Seq<char>>, c: Option<Seq<char>>| #[trigger]
        le(a, b) && #[trigger] le(b, c) implies le(a, c) by {
        if let (Some(x), Some(y), Some(z)) = (a, b, c) {
            lemma_seq_le_transitive(x, y, z);
        }
    }
}

/// A statement holds one transaction for each transaction block of the
/// file, and no other.
pub proof fn lemma_statement_keeps_transactions(
    out: Seq<OFXTransactionView>,
    content: Seq<char>,
)
    requires
        is_stable_sort(
            out,
            block_transactions(statement_blocks(content, 0)),
            by_fitid(),
            fitid_order(),
        ),
    ensures
        out.len() == statement_blocks(content, 0).len(),
        forall|x: OFXTransactionView|
            out.contains(x) <==> block_transactions(statement_blocks(content, 0)).contains(x),
{
    lemma_stable_sort_keeps_items(
        out,
        block_transactions(statement_blocks(content, 0)),
        by_fitid(),
        fitid_order(),
    );
}

/// `h` holds no `<`.
pub open spec fn no_tag_char(h: Seq<char>) -> bool {
    forall|i: int| 0 <= i < h.len() ==> h[i] != '<'
}

/// Behind a prefix `h`, a needle is found in `h + c` where it is found in
/// `c`, moved by the prefix's length.
proof fn lemma_first_occurrence_behind(h: Seq<char>, c: Seq<char>, needle: Seq<char>, s: int)
    requires
        0 <= s,
    ensures
        first_occurrence(h + c, needle, h.len() + s) == match first_occurrence(c, needle, s) {
            Some(i) => Some(i + h.len()),
            None => None::<int>,
        },
    decreases c.len() + 1 - s,
{
    let hc = h + c;
    if s + needle.len() > c.len() {
    } else {
        assert(hc.subrange(h.len() + s, h.len() + s + needle.len()) =~= c.subrange(
            s,
            s + needle.len(),
        ));
        if !occurs_at(c, needle, s) {
            lemma_first_occurrence_behind(h, c, needle, s + 1);
        }
    }
}

/// A needle that starts with `<` is not found inside a prefix that holds
/// no `<`: searching from anywhere in the prefix finds what searching from
/// its end finds.
proof fn lemma_first_occurrence_skips(h: Seq<char>, c: Seq<char>, needle: Seq<char>, j: int)
    requires
        no_tag_char(h),
        needle.len() > 0,
        needle[0] == '<',
        0 <= j <= h.len(),
    ensures
        first_occurrence(h + c, needle, j) == first_occurrence(h + c, needle, h.len() as int),
    decreases h.len() - j,
{
    let hc = h + c;
    if j < h.len() {
        if j + needle.len() > hc.len() {
        } else {
            assert(hc.subrange(j, j + needle.len())[0] == h[j]);
            assert(!occurs_at(hc, needle, j));
            lemma_first_occurrence_skips(h, c, needle, j + 1);
        }
    }
}

proof fn lemma_tag_value_behind(h: Seq<char>, c: Seq<char>, tag: Seq<char>)
    requires
        no_tag_char(h),
    ensures
        tag_value(h + c, tag) == tag_value(c, tag),
{
    let hc = h + c;
    let open = seq!['<'] + tag + seq!['>'];
    lemma_first_occurrence_skips(h, c, open, 0);
    lemma_first_occurrence_behind(h, c, open, 0);
    assert(h.len() + 0 == h.len());
    if let Some(i) = first_occurrence(c, open, 0) {
        lemma_first_occurrence(c, open, 0);
        let start = i + open.len();
        lemma_first_occurrence_behind(h, c, seq!['<'], start);
        let end = value_end(c, start);
        assert(value_end(hc, h.len() + start) == h.len() + end);
        if first_occurrence(c, seq!['<'], start) is Some {
            lemma_first_occurrence(c, seq!['<'], start);
        }
        assert(start <= end <= c.len());
        assert(hc.subrange(h.len() + start, h.len() + end) =~= c.subrange(start, end));
    }
}

proof fn lemma_statement_blocks_behind(h: Seq<char>, c: Seq<char>, pos: int)
    requires
        0 <= pos,
    ensures
        statement_blocks(h + c, h.len() + pos) == statement_blocks(c, pos),
    decreases c.len() - pos,
{
    let hc = h + c;
    if pos > c.len() {
    } else {
        lemma_first_occurrence_behind(h, c, stmt_open(), pos);
        if let Some(o) = first_occurrence(c, stmt_open(), pos) {
            lemma_first_occurrence(c, stmt_open(), pos);
            lemma_first_occurrence_behind(h, c, stmt_close(), o + 9);
            assert(h.len() + o + 9 == h.len() + (o + 9));
            if let Some(cl) = first_occurrence(c, stmt_close(), o + 9) {
                lemma_first_occurrence(c, stmt_close(), o + 9);
                assert(hc.subrange(h.len() + o + 9, h.len() + cl) =~= c.subrange(o + 9, cl));
                lemma_statement_blocks_behind(h, c, cl + 10);
                assert(h.len() + cl + 10 == h.len() + (cl + 10));
            }
        }
    }
}

/// A header without any `<` before the statement, such as the lines
/// `OFXHEADER:100`, `DATA:OFXSGML` and `VERSION:230` of an SGML file,
/// changes nothing of what is read: the balance and the transaction blocks
/// are those of the statement alone, and so the sorted transactions are
/// the same ones in the same order.
pub proof fn lemma_header_ignored(
    h: Seq<char>,
    c: Seq<char>,
    with_header: Seq<OFXTransactionView>,
    without: Seq<OFXTransactionView>,
)
    requires
        no_tag_char(h),
        is_stable_sort(
            with_header,
            block_transactions(statement_blocks(h + c, 0)),
            by_fitid(),
            fitid_order(),
        ),
        is_stable_sort(without, block_transactions(statement_blocks(c, 0)), by_fitid(), fitid_order()),
    ensures
        statement_balance(h + c) == statement_balance(c),
        statement_blocks(h + c, 0) == statement_blocks(c, 0),
        with_header == without,
{
    lemma_tag_value_behind(h, c, "BALAMT"@);
    let hc = h + c;
    lemma_first_occurrence_skips(h, c, stmt_open(), 0);
    lemma_statement_blocks_behind(h, c, 0);
    assert(h.len() + 0 == h.len());
    assert(statement_blocks(hc, 0) == statement_blocks(hc, h.len() as int));
    lemma_fitid_order_total();
    lemma_stable_sort_unique(
        with_header,
        without,
        block_transactions(statement_blocks(c, 0)),
        by_fitid(),
        fitid_order(),
    );
}

fn opt_string(o: Option<Vec<char>>) -> (r: Option<String>)
    ensures
        opt_chars(r) == (match o {
            Some(v) => Some(v@),
            None => None::<Seq<char>>,
        }),
{
    match o {
        Some(v) => Some(string_from_chars(&v)),
        None => None,
    }
}

fn fitid_le_exec(a: &Option<String>, b: &Option<String>) -> (r: bool)
    ensures
        r == fitid_le(opt_chars(*a), opt_chars(*b)),
{
    match (a, b) {
        (None, _) => true,
        (Some(_), None) => false,
        (Some(x), Some(y)) => {
            let xv = chars_of(x.as_str());
            let yv = chars_of(y.as_str());
            chars_le(&xv, &yv)
        },
    }
}

impl SortKey for OFXTransaction {
    type Key = Option<Seq<char>>;

    open spec fn key_of() -> spec_fn(OFXTransactionView) -> Option<Seq<char>> {
        by_fitid()
    }

    open spec fn key_le() -> spec_fn(Option<Seq<char>>, Option<Seq<char>>) -> bool {
        fitid_order()
    }

    proof fn lemma_key_order() {
        lemma_fitid_order_total();
    }

    fn key_at_most(&self, other: &Self) -> (r: bool) {
        fitid_le_exec(&self.fitid, &other.fitid)
    }
}

fn transaction_from_block(b: &Vec<char>) -> (t: OFXTransaction)
    ensures
        t@ == block_transaction(b@),
{
    let trntype = opt_string(tag_value_chars(b, &chars_of("TRNTYPE")));
    let fitid = opt_string(tag_value_chars(b, &chars_of("FITID")));
    let name = opt_string(tag_value_chars(b, &chars_of("NAME")));
    let memo = opt_string(tag_value_chars(b, &chars_of("MEMO")));
    let date_text = match tag_value_chars(b, &chars_of("DTPOSTED")) {
        Some(v) => v,
        None => Vec::new(),
    };
    let date = match date_from_chars(&date_text) {
        Some(d) => d,
        None => naive_date_default(),
    };
    let amount_text = match tag_value_chars(b, &chars_of("TRNAMT")) {
        Some(v) => v,
        None => Vec::new(),
    };
    let amount_cents = match cents_from_chars(&amount_text) {
        Some(v) => v,
        None => 0,
    };
    OFXTransaction { trntype, fitid, name, memo, date, amount_cents }
}

/// Reads an OFX/QFX statement: its ledger balance (`<BALAMT>`, 0 where
/// absent) and its transactions, ordered by `FITID`.
pub fn parse_ofx(content: &str) -> (r: Result<OFXStatement, String>)
    ensures
        r is Ok,
        r matches Ok(st) ==> {
            &&& st.balance_cents == statement_balance(content@)
            &&& is_stable_sort(
                views(st.transactions@),
                block_transactions(statement_blocks(content@, 0)),
                by_fitid(),
                fitid_order(),
            )
        },
{
    let c = chars_of(content);
    let balance = match tag_value_chars(&c, &chars_of("BALAMT")) {
        Some(t) => match cents_from_chars(&t) {
            Some(v) => v,
            None => 0,
        },
        None => 0,
    };
    let open: Vec<char> = vec!['<', 'S', 'T', 'M', 'T', 'T', 'R', 'N', '>'];
    let close: Vec<char> = vec!['<', '/', 'S', 'T', 'M', 'T', 'T', 'R', 'N', '>'];
    assert(open@ =~= stmt_open());
    assert(close@ =~= stmt_close());
    let mut transactions: Vec<OFXTransaction> = Vec::new();
    let mut pos: usize = 0;
    let ghost mut done: Seq<Seq<char>> = Seq::empty();
    proof {
        assert(done + statement_blocks(c@, 0) =~= statement_blocks(c@, 0));
        assert(views(transactions@) =~= block_transactions(done));
    }
    loop
        invariant
            pos <= c.len(),
            open@ == stmt_open(),
            close@ == stmt_close(),
            done + statement_blocks(c@, pos as int) == statement_blocks(c@, 0),
            views(transactions@) == block_transactions(done),
        ensures
            done == statement_blocks(c@, 0),
            views(transactions@) == block_transactions(done),
        decreases c.len() - pos,
    {
        match find_from(&c, &open, pos) {
            None => {
                assert(statement_blocks(c@, pos as int) =~= Seq::<Seq<char>>::empty());
                assert(done =~= statement_blocks(c@, 0));
                break ;
            },
            Some(o) => {
                let start = o + 9;
                match find_from(&c, &close, start) {
                    None => {
                        assert(statement_blocks(c@, pos as int) =~= Seq::<Seq<char>>::empty());
                        assert(done =~= statement_blocks(c@, 0));
                        break ;
                    },
                    Some(cl) => {
                        let block = copy_range(&c, start, cl);
                        let t = transaction_from_block(&block);
                        let ghost before = transactions@;
                        transactions.push(t);
                        proof {
                            assert(views(transactions@) =~= views(before).push(t@));
                            assert(block_transactions(done.push(block@)) =~= block_transactions(
                                done,
                            ).push(block_transaction(block@)));
                            let rest = statement_blocks(c@, cl + 10);
                            assert(statement_blocks(c@, pos as int) == seq![block@] + rest);
                            assert(done + statement_blocks(c@, pos as int) =~= done.push(block@)
                                + rest);
                            done = done.push(block@);
                            assert(views(transactions@) =~= block_transactions(done));
                        }
                        pos = cl + 10;
                    },
                }
            },
        }
    }
    let sorted = stable_sort(transactions);
    Ok(OFXStatement { transactions: sorted, balance_cents: balance })
}

// ---------------------------------------------------------------------
// Laws of amounts

proof fn lemma_trim_keeps(s: Seq<char>)
    requires
        s.len() == 0 || (!is_white_space(s[0]) && !is_white_space(s.last())),
    ensures
        trim(s) == s,
{
}

proof fn lemma_without_commas_keeps(s: Seq<char>)
    requires
        forall|i: int| 0 <= i < s.len() ==> s[i] != ',',
    ensures
        without_commas(s) == s,
    decreases s.len(),
{
    if s.len() > 0 {
        lemma_without_commas_keeps(s.drop_last());
        assert(s.drop_last().push(s.last()) =~= s);
    }
}

proof fn lemma_without_commas_chars(s: Seq<char>)
    ensures
        forall|i: int|
            0 <= i < without_commas(s).len() ==> #[trigger] without_commas(s)[i] != ',' && s.contains(
                without_commas(s)[i],
            ),
    decreases s.len(),
{
    if s.len() > 0 {
        lemma_without_commas_chars(s.drop_last());
        let w = without_commas(s);
        let p = without_commas(s.drop_last());
        assert forall|i: int| 0 <= i < w.len() implies #[trigger] w[i] != ',' && s.contains(w[i]) by {
            if i < p.len() {
                assert(w[i] == p[i]);
                let j = choose|j: int| 0 <= j < s.drop_last().len() && s.drop_last()[j] == p[i];
                assert(s[j] == p[i]);
            } else {
                assert(w[i] == s.last());
                assert(s[s.len() - 1] == s.last());
            }
        }
    }
}

proof fn lemma_scaled_cents_nonnegative(w: Seq<char>, p: int)
    requires
        all_digits(w),
    ensures
        scaled_cents(w, p) >= 0,
{
    if p > 0 {
        lemma_padded_digits(w, p);
        lemma_digits_value_bounds(padded_digits(w, p));
    }
    if 0 <= p < w.len() {
        assert(is_ascii_digit(w[p]));
    }
}

proof fn lemma_no_exponent_mark(u: Seq<char>, i: int)
    requires
        0 <= i,
        forall|j: int| 0 <= j < u.len() ==> !is_exponent_mark(#[trigger] u[j]),
    ensures
        first_exponent_mark(u, i) is None,
    decreases u.len() - i,
{
    if i < u.len() {
        lemma_no_exponent_mark(u, i + 1);
    }
}

/// A minus sign negates an amount: for a plain decimal text `u` (digits
/// and points only), which reads as no negative amount, `-u` is read
/// exactly where `u` is, and as its negation where that stays in range.
pub proof fn lemma_minus_sign_negates(u: Seq<char>)
    requires
        forall|i: int| 0 <= i < u.len() ==> is_ascii_digit(#[trigger] u[i]) || u[i] == '.',
    ensures
        amount_cents(u) matches Some(v) ==> v >= 0,
        (amount_cents(seq!['-'] + u) is None) == (amount_cents(u) is None),
        amount_cents(u) matches Some(v) ==> (v < i32::MAX ==> amount_cents(seq!['-'] + u) == Some(
            (-v) as i32,
        )),
{
    let m = seq!['-'] + u;
    assert(m[0] == '-');
    if u.len() > 0 {
        assert(m.last() == u.last());
        assert(is_ascii_digit(u[u.len() - 1]) || u[u.len() - 1] == '.');
        assert(is_ascii_digit(u[0]) || u[0] == '.');
    }
    lemma_trim_keeps(m);
    lemma_trim_keeps(u);
    assert forall|i: int| 0 <= i < m.len() implies m[i] != ',' by {
        if i > 0 {
            assert(m[i] == u[i - 1]);
        }
    }
    lemma_without_commas_keeps(m);
    lemma_without_commas_keeps(u);
    assert(m.drop_first() =~= u);
    assert forall|j: int| 0 <= j < u.len() implies !is_exponent_mark(#[trigger] u[j]) by {
        assert(is_ascii_digit(u[j]) || u[j] == '.');
    }
    lemma_no_exponent_mark(u, 0);
    if u.len() > 0 {
        assert(!same_letter(u[0], 'i'));
        assert(!same_letter(u[0], 'n'));
    }
    if let Some((ip, fp)) = mantissa_digits(u) {
        assert(all_digits(ip + fp)) by {
            assert forall|i: int| 0 <= i < (ip + fp).len() implies is_ascii_digit(
                #[trigger] (ip + fp)[i],
            ) by {
                if i < ip.len() {
                    assert((ip + fp)[i] == ip[i]);
                } else {
                    assert((ip + fp)[i] == fp[i - ip.len()]);
                }
            }
        }
        lemma_scaled_cents_nonnegative(ip + fp, ip.len() + 2int);
    }
}

/// Where a value written right after `<tag>` at the start of the text holds
/// no `<` and no white space at its ends, and what follows it is empty or
/// starts a tag, that value is the tag's value.
proof fn lemma_tag_value_at_start(tag: Seq<char>, v: Seq<char>, rest: Seq<char>)
    requires
        forall|i: int| 0 <= i < v.len() ==> #[trigger] v[i] != '<',
        v.len() == 0 || (!is_white_space(v[0]) && !is_white_space(v.last())),
        rest.len() == 0 || rest[0] == '<',
    ensures
        tag_value(seq!['<'] + tag + seq!['>'] + v + rest, tag) == Some(v),
{
    let open = seq!['<'] + tag + seq!['>'];
    let s = open + v + rest;
    assert(s.subrange(0, open.len() as int) =~= open);
    assert(occurs_at(s, open, 0));
    assert(first_occurrence(s, open, 0) == Some(0int));
    let start = open.len() as int;
    let end = start + v.len();
    let lt = seq!['<'];
    lemma_first_occurrence(s, lt, start);
    if rest.len() > 0 {
        assert(s.subrange(end, end + 1) =~= lt);
        assert(occurs_at(s, lt, end));
    }
    match first_occurrence(s, lt, start) {
        Some(j) => {
            if j < end {
                assert(s.subrange(j, j + 1)[0] == s[j]);
                assert(s[j] == v[j - start]);
            }
            assert(j == end);
        },
        None => {
            assert(rest.len() == 0);
        },
    }
    assert(value_end(s, start) == end);
    assert(s.subrange(start, end) =~= v);
    lemma_trim_keeps(v);
}

/// The balance of a statement is the signed amount written after its first
/// `<BALAMT>`: behind a header without `<`, a plain decimal `u` (digits and
/// points) gives the balance that the amount reader gives for `u`, and
/// `-u` gives its negation, so an overdrawn or credit-card balance keeps
/// its sign.
pub proof fn lemma_balance_keeps_sign(h: Seq<char>, u: Seq<char>, rest: Seq<char>)
    requires
        no_tag_char(h),
        forall|i: int| 0 <= i < u.len() ==> is_ascii_digit(#[trigger] u[i]) || u[i] == '.',
        rest.len() == 0 || rest[0] == '<',
    ensures
        amount_cents(u) matches Some(v) ==> statement_balance(h + ("<BALAMT>"@ + u + rest)) == v,
        amount_cents(u) matches Some(v) ==> (v < i32::MAX ==> statement_balance(
            h + ("<BALAMT>-"@ + u + rest),
        ) == -v),
        amount_cents(u) is None ==> statement_balance(h + ("<BALAMT>"@ + u + rest)) == 0
            && statement_balance(h + ("<BALAMT>-"@ + u + rest)) == 0,
{
    let tag = "BALAMT"@;
    reveal_strlit("BALAMT");
    reveal_strlit("<BALAMT>");
    reveal_strlit("<BALAMT>-");
    let open = seq!['<'] + tag + seq!['>'];
    let m = seq!['-'] + u;
    assert forall|i: int| 0 <= i < u.len() implies #[trigger] u[i] != '<' by {
        assert(is_ascii_digit(u[i]) || u[i] == '.');
    }
    assert forall|i: int| 0 <= i < m.len() implies #[trigger] m[i] != '<' by {
        if i > 0 {
            assert(m[i] == u[i - 1]);
            assert(is_ascii_digit(u[i - 1]) || u[i - 1] == '.');
        }
    }
    if u.len() > 0 {
        assert(is_ascii_digit(u[0]) || u[0] == '.');
        assert(is_ascii_digit(u.last()) || u.last() == '.');
        assert(m.last() == u.last());
    }
    lemma_tag_value_at_start(tag, u, rest);
    lemma_tag_value_at_start(tag, m, rest);
    assert("<BALAMT>"@ + u + rest =~= open + u + rest);
    assert("<BALAMT>-"@ + u + rest =~= open + m + rest);
    lemma_tag_value_behind(h, "<BALAMT>"@ + u + rest, tag);
    lemma_tag_value_behind(h, "<BALAMT>-"@ + u + rest, tag);
    lemma_minus_sign_negates(u);
    assert(tag_value(h + ("<BALAMT>-"@ + u + rest), tag) == Some(m));
    if let Some(v) = amount_cents(u) {
        if v < i32::MAX {
            assert(amount_cents(m) == Some((-v) as i32));
        }
    }
}

/// The balance of a statement is what the amount reader gives for the
/// value of its first `<BALAMT>`; 0 where there is no such value or it is
/// no amount.
pub proof fn lemma_balance_reads_amount(c: Seq<char>)
    ensures
        tag_value(c, "BALAMT"@) matches Some(t) ==> (amount_cents(t) matches Some(v)
            ==> statement_balance(c) == v),
        tag_value(c, "BALAMT"@) matches Some(t) ==> (amount_cents(t) is None ==> statement_balance(c)
            == 0),
        tag_value(c, "BALAMT"@) is None ==> statement_balance(c) == 0,
{
}

/// Commas do not change an amount: in a text without white space, they
/// are dropped before it is read.
pub proof fn lemma_commas_ignored(s: Seq<char>)
    requires
        forall|i: int| 0 <= i < s.len() ==> !is_white_space(#[trigger] s[i]),
    ensures
        amount_cents(s) == amount_cents(without_commas(s)),
{
    let w = without_commas(s);
    if s.len() > 0 {
        assert(!is_white_space(s[s.len() - 1]));
    }
    lemma_trim_keeps(s);
    lemma_without_commas_chars(s);
    assert forall|i: int| 0 <= i < w.len() implies !is_white_space(#[trigger] w[i]) by {
        assert(s.contains(w[i]));
    }
    if w.len() > 0 {
        assert(!is_white_space(w[w.len() - 1]));
    }
    lemma_trim_keeps(w);
    lemma_without_commas_keeps(w);
}

// ---------------------------------------------------------------------
// Laws of dates

/// A date written as `YYYYMMDD`.
pub open spec fn ofx_date_text(d: CalendarDate) -> Seq<char> {
    four_digits(d.year as nat) + two_digits(d.month as int) + two_digits(d.day as int)
}

proof fn lemma_digit_char(k: int)
    requires
        0 <= k < 10,
    ensures
        is_ascii_digit(digit_char(k)),
        digit_value(digit_char(k)) == k,
{
}

proof fn lemma_nat_text(n: nat)
    ensures
        all_digits(nat_text(n)),
        digits_value(nat_text(n)) == n,
        n < 10 ==> nat_text(n).len() == 1,
        n < 100 ==> nat_text(n).len() <= 2,
        n < 1000 ==> nat_text(n).len() <= 3,
        n < 10000 ==> nat_text(n).len() <= 4,
        n >= 10 ==> nat_text(n).len() >= 2,
        n >= 100 ==> nat_text(n).len() >= 3,
        n >= 1000 ==> nat_text(n).len() >= 4,
    decreases n,
{
    if n < 10 {
        lemma_digit_char(n as int);
        reveal_with_fuel(digits_value, 2);
        assert(nat_text(n).drop_last().len() == 0);
    } else {
        lemma_nat_text(n / 10);
        lemma_digit_char((n % 10) as int);
        let t = nat_text(n);
        assert(t.drop_last() =~= nat_text(n / 10));
        assert forall|i: int| 0 <= i < t.len() implies is_ascii_digit(#[trigger] t[i]) by {
            if i < t.len() - 1 {
                assert(t[i] == nat_text(n / 10)[i]);
            }
        }
    }
}

proof fn lemma_leading_zeros(z: Seq<char>, t: Seq<char>)
    requires
        forall|i: int| 0 <= i < z.len() ==> #[trigger] z[i] == '0',
    ensures
        digits_value(z + t) == digits_value(t),
    decreases t.len(),
{
    if t.len() == 0 {
        lemma_zeros_value(z);
        assert(z + t =~= z);
    } else {
        lemma_leading_zeros(z, t.drop_last());
        assert((z + t).drop_last() =~= z + t.drop_last());
        assert((z + t).last() == t.last());
    }
}

proof fn lemma_zeros_value(z: Seq<char>)
    requires
        forall|i: int| 0 <= i < z.len() ==> #[trigger] z[i] == '0',
    ensures
        digits_value(z) == 0,
    decreases z.len(),
{
    if z.len() > 0 {
        lemma_zeros_value(z.drop_last());
        assert(z[z.len() - 1] == '0');
    }
}

proof fn lemma_four_digits(n: nat)
    requires
        n < 10000,
    ensures
        four_digits(n).len() == 4,
        all_digits(four_digits(n)),
        digits_value(four_digits(n)) == n,
{
    lemma_nat_text(n);
    let t = nat_text(n);
    if t.len() < 4 {
        let z = Seq::new((4 - t.len()) as nat, |i: int| '0');
        lemma_leading_zeros(z, t);
        assert forall|i: int| 0 <= i < (z + t).len() implies is_ascii_digit(#[trigger] (z + t)[i]) by {
            if i >= z.len() {
                assert((z + t)[i] == t[i - z.len()]);
            }
        }
    }
}

proof fn lemma_two_digits(n: int)
    requires
        0 <= n < 100,
    ensures
        two_digits(n).len() == 2,
        all_digits(two_digits(n)),
        digits_value(two_digits(n)) == n,
{
    lemma_digit_char(n / 10);
    lemma_digit_char(n % 10);
    reveal_with_fuel(digits_value, 3);
    assert(two_digits(n).drop_last() =~= seq![digit_char(n / 10)]);
    assert(seq![digit_char(n / 10)].drop_last().len() == 0);
}

proof fn lemma_digits_of_keeps(s: Seq<char>)
    requires
        all_digits(s),
    ensures
        digits_of(s) == s,
    decreases s.len(),
{
    if s.len() > 0 {
        assert(all_digits(s.drop_last())) by {
            assert forall|i: int| 0 <= i < s.drop_last().len() implies is_ascii_digit(
                #[trigger] s.drop_last()[i],
            ) by {
                assert(s.drop_last()[i] == s[i]);
            }
        }
        lemma_digits_of_keeps(s.drop_last());
        assert(is_ascii_digit(s[s.len() - 1]));
        assert(s.drop_last().push(s.last()) =~= s);
    }
}

/// Writing a date of the years 0 to 9999 as `YYYYMMDD` and reading it back
/// gives the same date.
pub proof fn lemma_ofx_date_round_trip(d: CalendarDate)
    requires
        d.is_valid(),
        0 <= d.year <= 9999,
    ensures
        ofx_date(ofx_date_text(d)) == Some(d),
{
    let y = four_digits(d.year as nat);
    let m = two_digits(d.month as int);
    let dd = two_digits(d.day as int);
    lemma_four_digits(d.year as nat);
    lemma_two_digits(d.month as int);
    lemma_two_digits(d.day as int);
    let s = y + m + dd;
    assert(s.len() == 8);
    assert forall|i: int| 0 <= i < s.len() implies is_ascii_digit(#[trigger] s[i]) by {
        if i < 4 {
            assert(s[i] == y[i]);
        } else if i < 6 {
            assert(s[i] == m[i - 4]);
        } else {
            assert(s[i] == dd[i - 6]);
        }
    }
    assert(!is_white_space(s[0]));
    assert(!is_white_space(s[7]));
    lemma_trim_keeps(s);
    lemma_first_occurrence(s, seq!['['], 0);
    if let Some(k) = first_occurrence(s, seq!['['], 0) {
        assert(s.subrange(k, k + 1)[0] == s[k]);
    }
    assert(date_text(s) == s);
    lemma_digits_of_keeps(s);
    assert(s.subrange(0, 4) =~= y);
    assert(s.subrange(4, 6) =~= m);
    assert(s.subrange(6, 8) =~= dd);
}

} // verus!
