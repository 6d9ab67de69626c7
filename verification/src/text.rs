//! Character-level helpers on workspace names: whitespace trimming, decimal
//! numbers, prefixes and the zero width space that keeps names apart.
use vstd::prelude::*;

verus! {

/// The zero width space that is appended to a name to keep it apart from a
/// name that is already taken.
pub open spec fn zero_width_space() -> char {
    '\u{200B}'
}

/// `c` has the Unicode property White_Space, which is what `char::is_whitespace`,
/// `str::trim` and the regex class `\s` test.
pub open spec fn is_white_space(c: char) -> bool {
    ||| ('\u{9}' <= c && c <= '\u{d}')
    ||| c == ' '
    ||| c == '\u{85}'
    ||| c == '\u{a0}'
    ||| c == '\u{1680}'
    ||| ('\u{2000}' <= c && c <= '\u{200a}')
    ||| c == '\u{2028}'
    ||| c == '\u{2029}'
    ||| c == '\u{202f}'
    ||| c == '\u{205f}'
    ||| c == '\u{3000}'
}

pub open spec fn is_ascii_digit(c: char) -> bool {
    '0' <= c && c <= '9'
}

/// `s` without its leading white space.
pub open spec fn trim_start_seq(s: Seq<char>) -> Seq<char>
    decreases s.len(),
{
    if s.len() > 0 && is_white_space(s[0]) {
        trim_start_seq(s.drop_first())
    } else {
        s
    }
}

/// `s` without its trailing white space.
pub open spec fn trim_end_seq(s: Seq<char>) -> Seq<char>
    decreases s.len(),
{
    if s.len() > 0 && is_white_space(s.last()) {
        trim_end_seq(s.drop_last())
    } else {
        s
    }
}

/// `s` without leading and trailing white space, as `str::trim` gives it.
pub open spec fn trim_seq(s: Seq<char>) -> Seq<char> {
    trim_end_seq(trim_start_seq(s))
}

/// The character of the decimal digit `d` (for `d < 10`).
pub open spec fn digit_char(d: nat) -> char {
    (d + 48) as char
}

/// The value of the ASCII digit `c`.
pub open spec fn digit_value(c: char) -> nat {
    (c as int - 48) as nat
}

/// The decimal notation of `n`, as `n.to_string()` writes it.
pub open spec fn decimal(n: nat) -> Seq<char>
    decreases n,
{
    if n < 10 {
        seq![digit_char(n)]
    } else {
        decimal(n / 10).push(digit_char(n % 10))
    }
}

pub open spec fn all_ascii_digits(s: Seq<char>) -> bool {
    forall|i: int| 0 <= i < s.len() ==> is_ascii_digit(#[trigger] s[i])
}

/// The value of the decimal digits `s`.
pub open spec fn digits_value(s: Seq<char>) -> nat
    decreases s.len(),
{
    if s.len() == 0 {
        0
    } else {
        digits_value(s.drop_last()) * 10 + digit_value(s.last())
    }
}

/// `s` without one leading `+`, the sign that `str::parse` accepts for an
/// unsigned number.
pub open spec fn unsigned_digits(s: Seq<char>) -> Seq<char> {
    if s.len() > 0 && s[0] == '+' {
        s.drop_first()
    } else {
        s
    }
}

/// What `str::parse` gives for an unsigned integer type whose largest value is
/// `max`: an optional `+`, then at least one ASCII digit and nothing else, of a
/// value that fits.
pub open spec fn parse_unsigned(s: Seq<char>, max: nat) -> Option<nat> {
    let t = unsigned_digits(s);
    if t.len() > 0 && all_ascii_digits(t) && digits_value(t) <= max {
        Some(digits_value(t))
    } else {
        None
    }
}

/// `r` is what `parse_unsigned` gives, taken as a machine integer.
pub open spec fn parsed_as(r: Option<usize>, p: Option<nat>) -> bool {
    match p {
        Some(v) => r == Some(v as usize),
        None => r is None,
    }
}

/// `s` with every zero width space taken out.
pub open spec fn without_zero_width_space(s: Seq<char>) -> Seq<char>
    decreases s.len(),
{
    if s.len() == 0 {
        s
    } else if s.last() == zero_width_space() {
        without_zero_width_space(s.drop_last())
    } else {
        without_zero_width_space(s.drop_last()).push(s.last())
    }
}

pub open spec fn has_prefix(s: Seq<char>, p: Seq<char>) -> bool {
    p.len() <= s.len() && s.subrange(0, p.len() as int) == p
}

/// `s` with every leading repetition of `p` taken off, as
/// `str::trim_start_matches` does with a non-empty pattern.
pub open spec fn strip_leading_repeats(s: Seq<char>, p: Seq<char>) -> Seq<char>
    decreases s.len(),
{
    if p.len() > 0 && has_prefix(s, p) {
        strip_leading_repeats(s.subrange(p.len() as int, s.len() as int), p)
    } else {
        s
    }
}

/// The text `format!("{} {}", n, name).trim()` gives.
pub open spec fn numbered(n: nat, name: Seq<char>) -> Seq<char> {
    trim_seq(decimal(n) + seq![' '] + name)
}

pub fn white_space(c: char) -> (b: bool)
    ensures
        b == is_white_space(c),
{
    ('\u{9}' <= c && c <= '\u{d}') || c == ' ' || c == '\u{85}' || c == '\u{a0}' || c
        == '\u{1680}' || ('\u{2000}' <= c && c <= '\u{200a}') || c == '\u{2028}' || c
        == '\u{2029}' || c == '\u{202f}' || c == '\u{205f}' || c == '\u{3000}'
}

proof fn lemma_trim_start_skip(s: Seq<char>, i: int)
    requires
        0 <= i <= s.len(),
        forall|j: int| 0 <= j < i ==> is_white_space(#[trigger] s[j]),
    ensures
        trim_start_seq(s) == trim_start_seq(s.subrange(i, s.len() as int)),
    decreases i,
{
    if i > 0 {
        assert(s.drop_first().subrange(i - 1, s.drop_first().len() as int) =~= s.subrange(
            i,
            s.len() as int,
        ));
        assert forall|j: int| 0 <= j < i - 1 implies is_white_space(
            #[trigger] s.drop_first()[j],
        ) by {
            assert(s.drop_first()[j] == s[j + 1]);
        }
        lemma_trim_start_skip(s.drop_first(), i - 1);
    } else {
        assert(s.subrange(0, s.len() as int) =~= s);
    }
}

proof fn lemma_trim_end_take(s: Seq<char>, i: int)
    requires
        0 <= i <= s.len(),
        forall|j: int| i <= j < s.len() ==> is_white_space(#[trigger] s[j]),
    ensures
        trim_end_seq(s) == trim_end_seq(s.subrange(0, i)),
    decreases s.len() - i,
{
    if i < s.len() {
        assert(s.drop_last().subrange(0, i) =~= s.subrange(0, i));
        lemma_trim_end_take(s.drop_last(), i);
    } else {
        assert(s.subrange(0, i) =~= s);
    }
}

/// `s.trim()`: the part of `s` without leading and trailing white space.
pub fn trim_slice<'a>(s: &'a str) -> (r: &'a str)
    ensures
        r@ == trim_seq(s@),
{
    let len = s.unicode_len();
    let mut i: usize = 0;
    while i < len && white_space(s.get_char(i))
        invariant
            len == s@.len(),
            i <= len,
            forall|j: int| 0 <= j < i ==> is_white_space(#[trigger] s@[j]),
        decreases len - i,
    {
        i = i + 1;
    }
    proof {
        lemma_trim_start_skip(s@, i as int);
        let t = s@.subrange(i as int, len as int);
        if i < len {
            assert(t[0] == s@[i as int]);
            assert(trim_start_seq(t) == t);
        } else {
            assert(t.len() == 0);
        }
    }
    let ghost t = s@.subrange(i as int, len as int);
    let mut j: usize = len;
    while j > i && white_space(s.get_char(j - 1))
        invariant
            len == s@.len(),
            i <= j <= len,
            t == s@.subrange(i as int, len as int),
            forall|k: int| j <= k < len ==> is_white_space(#[trigger] s@[k]),
        decreases j,
    {
        j = j - 1;
    }
    proof {
        assert forall|k: int| j - i <= k < t.len() implies is_white_space(#[trigger] t[k]) by {
            assert(t[k] == s@[k + i]);
        }
        lemma_trim_end_take(t, j - i);
        let u = t.subrange(0, j - i);
        assert(u =~= s@.subrange(i as int, j as int));
        if j > i {
            assert(u.last() == s@[j - 1]);
        }
    }
    s.substring_char(i, j)
}

/// `s.trim().to_string()`.
pub fn trim(s: &str) -> (r: String)
    ensures
        r@ == trim_seq(s@),
{
    String::from_str(trim_slice(s))
}

/// The string of the single decimal digit `d`.
fn digit_str(d: usize) -> (r: &'static str)
    requires
        d < 10,
    ensures
        r@ == seq![digit_char(d as nat)],
{
    if d == 0 {
        proof {
            reveal_strlit("0");
        }
        "0"
    } else if d == 1 {
        proof {
            reveal_strlit("1");
        }
        "1"
    } else if d == 2 {
        proof {
            reveal_strlit("2");
        }
        "2"
    } else if d == 3 {
        proof {
            reveal_strlit("3");
        }
        "3"
    } else if d == 4 {
        proof {
            reveal_strlit("4");
        }
        "4"
    } else if d == 5 {
        proof {
            reveal_strlit("5");
        }
        "5"
    } else if d == 6 {
        proof {
            reveal_strlit("6");
        }
        "6"
    } else if d == 7 {
        proof {
            reveal_strlit("7");
        }
        "7"
    } else if d == 8 {
        proof {
            reveal_strlit("8");
        }
        "8"
    } else {
        proof {
            reveal_strlit("9");
        }
        "9"
    }
}

/// Appends the decimal notation of `n` to `s`.
fn push_decimal(s: &mut String, n: usize)
    ensures
        final(s)@ == old(s)@ + decimal(n as nat),
    decreases n,
{
    if n >= 10 {
        push_decimal(s, n / 10);
        s.append(digit_str(n % 10));
        assert(final(s)@ =~= old(s)@ + decimal(n as nat));
    } else {
        s.append(digit_str(n));
    }
}

/// `n.to_string()`: the decimal notation of `n`.
pub fn decimal_string(n: usize) -> (r: String)
    ensures
        r@ == decimal(n as nat),
{
    let mut s = String::new();
    push_decimal(&mut s, n);
    assert(s@ =~= decimal(n as nat));
    s
}

proof fn lemma_digit_step(value: nat, d: nat, max: nat)
    requires
        d < 10,
        d <= max,
    ensures
        value * 10 + d <= max <==> value <= (max - d) as nat / 10,
{
    assert(value * 10 + d <= max <==> value <= (max - d) as nat / 10) by (nonlinear_arith)
        requires
            d < 10,
            d <= max,
    ;
}

/// What `str::parse` gives for an unsigned integer type whose largest value is
/// `max` (`None` where it gives an error).
pub fn parse_bounded(s: &str, max: usize) -> (r: Option<usize>)
    ensures
        parsed_as(r, parse_unsigned(s@, max as nat)),
{
    let len = s.unicode_len();
    if len == 0 {
        return None;
    }
    let mut start: usize = 0;
    if s.get_char(0) == '+' {
        start = 1;
    }
    let ghost t = unsigned_digits(s@);
    assert(t =~= s@.subrange(start as int, len as int));
    if start == len {
        return None;
    }
    let mut i: usize = start;
    let mut value: usize = 0;
    let mut overflow = false;
    while i < len
        invariant
            len == s@.len(),
            start <= i <= len,
            t == s@.subrange(start as int, len as int),
            t == unsigned_digits(s@),
            all_ascii_digits(s@.subrange(start as int, i as int)),
            !overflow ==> value == digits_value(s@.subrange(start as int, i as int)),
            overflow ==> digits_value(s@.subrange(start as int, i as int)) > max,
            value <= max,
        decreases len - i,
    {
        let c = s.get_char(i);
        if !('0' <= c && c <= '9') {
            proof {
                assert(t[i - start] == c);
                assert(!is_ascii_digit(t[i - start]));
                assert(!all_ascii_digits(t));
                assert(parse_unsigned(s@, max as nat) is None);
            }
            return None;
        }
        let d: usize = ((c as u32) - 48) as usize;
        let ghost p = s@.subrange(start as int, i as int);
        let ghost q = s@.subrange(start as int, i + 1);
        assert(q.drop_last() =~= p);
        assert(q.last() == c);
        assert(digits_value(q) == digits_value(p) * 10 + d);
        if !overflow {
            if d > max {
                overflow = true;
            } else {
                proof {
                    lemma_digit_step(value as nat, d as nat, max as nat);
                }
                if value > (max - d) / 10 {
                    overflow = true;
                } else {
                    value = value * 10 + d;
                }
            }
        }
        assert(all_ascii_digits(q)) by {
            assert forall|k: int| 0 <= k < q.len() implies is_ascii_digit(#[trigger] q[k]) by {
                if k < p.len() {
                    assert(q[k] == p[k]);
                }
            }
        }
        i = i + 1;
    }
    assert(s@.subrange(start as int, len as int) == t);
    if overflow {
        None
    } else {
        Some(value)
    }
}

/// `s.parse::<usize>()`, with `None` in place of the error.
pub fn parse_usize(s: &str) -> (r: Option<usize>)
    ensures
        parsed_as(r, parse_unsigned(s@, usize::MAX as nat)),
{
    parse_bounded(s, usize::MAX)
}

/// `s.replace("\u{200B}", "")`: `s` with every zero width space taken out.
pub fn remove_zero_width_spaces(s: &str) -> (r: String)
    ensures
        r@ == without_zero_width_space(s@),
{
    let len = s.unicode_len();
    let mut r = String::new();
    let mut i: usize = 0;
    while i < len
        invariant
            len == s@.len(),
            i <= len,
            r@ == without_zero_width_space(s@.subrange(0, i as int)),
        decreases len - i,
    {
        let c = s.get_char(i);
        let ghost p = s@.subrange(0, i as int);
        let ghost q = s@.subrange(0, i + 1);
        assert(q.drop_last() =~= p);
        assert(q.last() == c);
        if c != '\u{200B}' {
            r.append(s.substring_char(i, i + 1));
            assert(s@.subrange(i as int, i + 1) =~= seq![c]);
        }
        i = i + 1;
    }
    assert(s@.subrange(0, len as int) =~= s@);
    r
}

/// `s.starts_with(p)`.
pub fn starts_with(s: &str, p: &str) -> (b: bool)
    ensures
        b == has_prefix(s@, p@),
{
    let n = s.unicode_len();
    let m = p.unicode_len();
    if m > n {
        return false;
    }
    let mut i: usize = 0;
    while i < m
        invariant
            n == s@.len(),
            m == p@.len(),
            m <= n,
            i <= m,
            forall|k: int| 0 <= k < i ==> s@[k] == p@[k],
        decreases m - i,
    {
        if s.get_char(i) != p.get_char(i) {
            assert(s@.subrange(0, m as int)[i as int] != p@[i as int]);
            return false;
        }
        i = i + 1;
    }
    assert(s@.subrange(0, m as int) =~= p@);
    true
}

/// `a == b` on texts.
pub fn equal_text(a: &str, b: &str) -> (r: bool)
    ensures
        r == (a@ == b@),
{
    if a.unicode_len() != b.unicode_len() {
        return false;
    }
    let r = starts_with(a, b);
    proof {
        assert(a@.subrange(0, b@.len() as int) =~= a@);
    }
    r
}

/// `s.trim_start_matches(p)` for a non-empty `p`.
pub fn trim_start_matches(s: &str, p: &str) -> (r: String)
    requires
        p@.len() > 0,
    ensures
        r@ == strip_leading_repeats(s@, p@),
{
    let n = s.unicode_len();
    let m = p.unicode_len();
    let mut i: usize = 0;
    assert(s@.subrange(0, n as int) =~= s@);
    while m <= n - i && starts_with(s.substring_char(i, n), p)
        invariant
            n == s@.len(),
            m == p@.len(),
            m > 0,
            i <= n,
            strip_leading_repeats(s@, p@) == strip_leading_repeats(
                s@.subrange(i as int, n as int),
                p@,
            ),
        decreases n - i,
    {
        proof {
            let t = s@.subrange(i as int, n as int);
            assert(t.subrange(m as int, t.len() as int) =~= s@.subrange(i + m, n as int));
        }
        i = i + m;
    }
    proof {
        let t = s@.subrange(i as int, n as int);
        if i + m > n {
            assert(!has_prefix(t, p@));
        }
    }
    String::from_str(s.substring_char(i, n))
}

/// `format!("{} {}", n, name).trim()`.
pub fn numbered_name(n: usize, name: &str) -> (r: String)
    ensures
        r@ == numbered(n as nat, name@),
{
    let mut s = decimal_string(n);
    s.append(" ");
    s.append(name);
    proof {
        reveal_strlit(" ");
        assert(s@ =~= decimal(n as nat) + seq![' '] + name@);
    }
    trim(s.as_str())
}


/// `t` can follow the digits of a number in a name without adding to them: it
/// is empty or starts with white space, a zero width space, or an ASCII
/// character that is no digit.
pub open spec fn ends_number(t: Seq<char>) -> bool {
    ||| t.len() == 0
    ||| is_white_space(t[0])
    ||| t[0] == zero_width_space()
    ||| (t[0] < '\u{80}' && !is_ascii_digit(t[0]))
}

/// The decimal notation of `n` is a non-empty run of ASCII digits of value `n`.
pub proof fn lemma_decimal(n: nat)
    ensures
        decimal(n).len() > 0,
        all_ascii_digits(decimal(n)),
        digits_value(decimal(n)) == n,
    decreases n,
{
    if n >= 10 {
        lemma_decimal(n / 10);
        let d = decimal(n);
        assert(d.drop_last() =~= decimal(n / 10));
        assert forall|i: int| 0 <= i < d.len() implies is_ascii_digit(#[trigger] d[i]) by {
            if i < d.len() - 1 {
                assert(d[i] == decimal(n / 10)[i]);
            }
        }
        assert(digit_value(digit_char(n % 10)) == n % 10);
        assert(d.last() == digit_char(n % 10));
        assert(digits_value(d) == digits_value(decimal(n / 10)) * 10 + digit_value(d.last()));
        assert(n == (n / 10) * 10 + n % 10);
    } else {
        assert(digit_value(digit_char(n)) == n);
        let d = decimal(n);
        assert(d.drop_last() =~= Seq::<char>::empty());
        assert(digits_value(d) == digits_value(d.drop_last()) * 10 + digit_value(d.last()));
    }
}

/// A number written in decimal reads back as itself: `n.to_string().parse()`
/// gives `n` wherever `n` fits.
pub proof fn lemma_decimal_parses(n: nat, max: nat)
    requires
        n <= max,
    ensures
        parse_unsigned(decimal(n), max) == Some(n),
{
    lemma_decimal(n);
    assert(is_ascii_digit(decimal(n)[0]));
    assert(unsigned_digits(decimal(n)) == decimal(n));
}

/// Taking the zero width spaces out of two texts one after the other.
pub proof fn lemma_without_zero_width_space_add(a: Seq<char>, b: Seq<char>)
    ensures
        without_zero_width_space(a + b) == without_zero_width_space(a) + without_zero_width_space(b),
    decreases b.len(),
{
    if b.len() == 0 {
        assert(a + b =~= a);
        assert(without_zero_width_space(a) + without_zero_width_space(b) =~= without_zero_width_space(a));
    } else {
        lemma_without_zero_width_space_add(a, b.drop_last());
        assert((a + b).drop_last() =~= a + b.drop_last());
        assert((a + b).last() == b.last());
        if b.last() == zero_width_space() {
        } else {
            assert(without_zero_width_space(a) + without_zero_width_space(b) =~= (
            without_zero_width_space(a) + without_zero_width_space(b.drop_last())).push(b.last()));
        }
    }
}

/// A text with no zero width space keeps all of it.
pub proof fn lemma_without_zero_width_space_none(s: Seq<char>)
    requires
        forall|i: int| 0 <= i < s.len() ==> #[trigger] s[i] != zero_width_space(),
    ensures
        without_zero_width_space(s) == s,
    decreases s.len(),
{
    if s.len() > 0 {
        let t = s.drop_last();
        assert forall|i: int| 0 <= i < t.len() implies #[trigger] t[i] != zero_width_space() by {
            assert(t[i] == s[i]);
        }
        lemma_without_zero_width_space_none(t);
        assert(s.last() == s[s.len() - 1]);
        assert(t.push(s.last()) =~= s);
    }
}

proof fn lemma_trim_end_keeps(s: Seq<char>, k: int)
    requires
        1 <= k <= s.len(),
        !is_white_space(s[k - 1]),
    ensures
        exists|j: int| k <= j <= s.len() && trim_end_seq(s) == #[trigger] s.subrange(0, j),
    decreases s.len(),
{
    if is_white_space(s.last()) {
        let t = s.drop_last();
        assert(t[k - 1] == s[k - 1]);
        lemma_trim_end_keeps(t, k);
        let j = choose|j: int| k <= j <= t.len() && trim_end_seq(t) == #[trigger] t.subrange(0, j);
        assert(t.subrange(0, j) =~= s.subrange(0, j));
    } else {
        assert(s.subrange(0, s.len() as int) =~= s);
    }
}

/// The name `numbered` gives, without zero width spaces, is the decimal
/// notation of the number followed by nothing or by a space.
pub proof fn lemma_numbered_form(n: nat, name: Seq<char>)
    ensures
        exists|t: Seq<char>|
            without_zero_width_space(numbered(n, name)) == decimal(n) + t && (t.len() == 0 || t[0]
                == ' '),
{
    lemma_decimal(n);
    let d = decimal(n);
    let s = d + seq![' '] + name;
    assert(s[0] == d[0]);
    assert(is_ascii_digit(d[0]));
    assert(trim_start_seq(s) == s);
    assert(s[d.len() - 1] == d[d.len() - 1]);
    assert(is_ascii_digit(d[d.len() - 1]));
    lemma_trim_end_keeps(s, d.len() as int);
    let j = choose|j: int| d.len() <= j <= s.len() && trim_end_seq(s) == #[trigger] s.subrange(0, j);
    let t = s.subrange(d.len() as int, j);
    assert(s.subrange(0, j) =~= d + t);
    assert forall|i: int| 0 <= i < d.len() implies #[trigger] d[i] != zero_width_space() by {
        assert(is_ascii_digit(d[i]));
    }
    lemma_without_zero_width_space_none(d);
    lemma_without_zero_width_space_add(d, t);
    let u = without_zero_width_space(t);
    if t.len() > 0 {
        assert(t[0] == ' ');
        assert(t =~= seq![' '] + t.drop_first());
        lemma_without_zero_width_space_add(seq![' '], t.drop_first());
        lemma_without_zero_width_space_none(seq![' ']);
        assert(u[0] == ' ');
    } else {
        assert(u.len() == 0);
    }
    assert(without_zero_width_space(numbered(n, name)) == d + u);
}

} // verus!
