//! Character classes, tokenization and rendering helpers shared by the
//! query compiler: everything here is stated over `Seq<char>` views.
use vstd::prelude::*;

verus! {

/// Decimal digit.
pub open spec fn is_digit_char(c: char) -> bool {
    '0' <= c && c <= '9'
}

/// The decimal digit character for `n` in `0..10`.
pub open spec fn digit_char(n: int) -> char {
    if n == 0 { '0' }
    else if n == 1 { '1' }
    else if n == 2 { '2' }
    else if n == 3 { '3' }
    else if n == 4 { '4' }
    else if n == 5 { '5' }
    else if n == 6 { '6' }
    else if n == 7 { '7' }
    else if n == 8 { '8' }
    else if n == 9 { '9' }
    else { '0' }
}

/// Decimal rendering of a non-negative integer, most significant digit first.
pub open spec fn spec_nat_string(n: int) -> Seq<char>
    decreases n,
{
    if n <= 9 {
        seq![digit_char(if n < 0 { 0int } else { n })]
    } else {
        spec_nat_string(n / 10) + seq![digit_char(n % 10)]
    }
}

/// Decimal rendering of a signed integer, as `i64::to_string` produces it.
pub open spec fn spec_i64_string(n: int) -> Seq<char> {
    if n < 0 {
        seq!['-'] + spec_nat_string(-n)
    } else {
        spec_nat_string(n)
    }
}

pub proof fn lemma_nat_string_digits(n: int)
    ensures
        spec_nat_string(n).len() > 0,
        forall|i: int| 0 <= i < spec_nat_string(n).len() ==> is_digit_char(#[trigger] spec_nat_string(n)[i]),
    decreases n,
{
    if n > 9 {
        lemma_nat_string_digits(n / 10);
    }
}

/// Every character of a rendered integer is a digit or a leading minus sign.
pub proof fn lemma_i64_string_chars(n: int)
    ensures
        spec_i64_string(n).len() > 0,
        forall|i: int| 0 <= i < spec_i64_string(n).len()
            ==> is_digit_char(#[trigger] spec_i64_string(n)[i]) || spec_i64_string(n)[i] == '-',
{
    lemma_nat_string_digits(if n < 0 { -n } else { n });
}

fn digit_of(n: u128) -> (c: char)
    requires
        n <= 9,
    ensures
        c == digit_char(n as int),
{
    if n == 0 { '0' }
    else if n == 1 { '1' }
    else if n == 2 { '2' }
    else if n == 3 { '3' }
    else if n == 4 { '4' }
    else if n == 5 { '5' }
    else if n == 6 { '6' }
    else if n == 7 { '7' }
    else if n == 8 { '8' }
    else { '9' }
}

/// Renders a non-negative integer in decimal.
pub fn u128_to_string(n: u128) -> (r: String)
    ensures
        r@ == spec_nat_string(n as int),
    decreases n,
{
    if n <= 9 {
        let mut r = String::new();
        push_char(&mut r, digit_of(n));
        proof {
            assert(r@ =~= spec_nat_string(n as int));
        }
        r
    } else {
        let mut r = u128_to_string(n / 10);
        push_char(&mut r, digit_of(n % 10));
        r
    }
}

/// Renders a signed integer in decimal, with a leading minus sign when
/// negative.
pub fn i64_to_string(n: i64) -> (r: String)
    ensures
        r@ == spec_i64_string(n as int),
{
    if n < 0 {
        let m: u128 = (-(n as i128)) as u128;
        let mut r = String::new();
        push_char(&mut r, '-');
        let digits = u128_to_string(m);
        r.append(digits.as_str());
        proof {
            assert(m == -(n as int));
            assert(r@ =~= spec_i64_string(n as int));
        }
        r
    } else {
        u128_to_string(n as u128)
    }
}

/// The integer value of a digit sequence, most significant digit first.
pub open spec fn digits_value(s: Seq<char>) -> int
    decreases s.len(),
{
    if s.len() == 0 {
        0
    } else {
        digits_value(s.drop_last()) * 10 + (s.last() as int - '0' as int)
    }
}

pub open spec fn all_digits(s: Seq<char>) -> bool {
    forall|i: int| 0 <= i < s.len() ==> is_digit_char(#[trigger] s[i])
}

/// What `str::parse::<i64>` accepts: an optional sign followed by one or
/// more decimal digits, whose value fits in `i64`.
pub open spec fn spec_parse_i64(s: Seq<char>) -> Option<i64> {
    let ds = if s.len() > 0 && (s[0] == '+' || s[0] == '-') { s.drop_first() } else { s };
    let neg = s.len() > 0 && s[0] == '-';
    if ds.len() == 0 || !all_digits(ds) {
        None
    } else {
        let v = if neg { -digits_value(ds) } else { digits_value(ds) };
        if i64::MIN <= v <= i64::MAX {
            Some(v as i64)
        } else {
            None
        }
    }
}

proof fn lemma_digits_value_nonneg(s: Seq<char>)
    requires
        all_digits(s),
    ensures
        digits_value(s) >= 0,
    decreases s.len(),
{
    if s.len() > 0 {
        assert(forall|i: int| 0 <= i < s.drop_last().len() ==> s.drop_last()[i] == s[i]);
        lemma_digits_value_nonneg(s.drop_last());
    }
}

/// Parses an optionally signed decimal integer, as `str::parse` would:
/// `None` on anything but sign-and-digits, and on a value out of range.
pub fn parse_i64(s: &str) -> (r: Option<i64>)
    ensures
        r == spec_parse_i64(s@),
{
    let len = s.unicode_len();
    if len == 0 {
        return None;
    }
    let c0 = s.get_char(0);
    let neg = c0 == '-';
    let has_sign = c0 == '-' || c0 == '+';
    let start: usize = if has_sign {
        1
    } else {
        0
    };
    let ghost ds = if has_sign {
        s@.drop_first()
    } else {
        s@
    };
    proof {
        assert(ds =~= s@.skip(start as int));
    }
    if start == len {
        return None;
    }
    // the magnitude, saturated just above the largest one that fits
    let cap: u128 = 9223372036854775809;
    let mut acc: u128 = 0;
    let mut i: usize = start;
    while i < len
        invariant
            start <= i <= len,
            len == s@.len(),
            start == 0 || start == 1,
            start < len,
            (start == 1) == (s@[0] == '+' || s@[0] == '-'),
            ds == s@.skip(start as int),
            cap == 9223372036854775809,
            forall|j: int| 0 <= j < i - start ==> is_digit_char(#[trigger] ds[j]),
            acc < 10 * cap,
            digits_value(ds.take(i - start)) < cap ==> acc == digits_value(ds.take(i - start)),
            digits_value(ds.take(i - start)) >= cap ==> acc >= cap,
        decreases len - i,
    {
        let c = s.get_char(i);
        if !('0' <= c && c <= '9') {
            proof {
                assert(ds[i - start] == s@[i as int]);
                assert(!all_digits(ds));
            }
            return None;
        }
        let d: u128 = ((c as u32) - 48) as u128;
        let ghost pref = ds.take(i - start);
        let ghost pref1 = ds.take(i + 1 - start);
        proof {
            lemma_digits_value_nonneg(pref);
            assert(pref1.drop_last() =~= pref);
            assert(pref1.last() == ds[i - start] && ds[i - start] == s@[i as int]);
            assert(digits_value(pref1) == digits_value(pref) * 10 + (s@[i as int] as int
                - '0' as int));
            assert(d == s@[i as int] as int - '0' as int);
        }
        if acc < cap {
            acc = acc * 10 + d;
        } else {
            proof {
                assert(digits_value(pref) >= cap);
                assert(digits_value(pref1) >= digits_value(pref));
            }
        }
        i = i + 1;
    }
    proof {
        assert(ds.take(len - start) =~= ds);
        assert(all_digits(ds));
        lemma_digits_value_nonneg(ds);
    }
    let bound: u128 = if neg {
        9223372036854775808
    } else {
        9223372036854775807
    };
    if acc > bound {
        return None;
    }
    if neg {
        if acc == 9223372036854775808 {
            Some(i64::MIN)
        } else {
            Some(-(acc as i64))
        }
    } else {
        Some(acc as i64)
    }
}

/// What `str::parse::<bool>` accepts: exactly `true` or `false`.
pub open spec fn spec_parse_bool(s: Seq<char>) -> Option<bool> {
    if s == "true"@ {
        Some(true)
    } else if s == "false"@ {
        Some(false)
    } else {
        None
    }
}

/// Character-wise string comparison.
pub fn str_eq(a: &str, b: &str) -> (r: bool)
    ensures
        r == (a@ == b@),
{
    let alen = a.unicode_len();
    let blen = b.unicode_len();
    if alen != blen {
        return false;
    }
    let mut i: usize = 0;
    while i < alen
        invariant
            alen == a@.len(),
            blen == b@.len(),
            alen == blen,
            i <= alen,
            forall|j: int| 0 <= j < i ==> a@[j] == b@[j],
        decreases alen - i,
    {
        if a.get_char(i) != b.get_char(i) {
            return false;
        }
        i = i + 1;
    }
    proof {
        assert(a@ =~= b@);
    }
    true
}

pub fn parse_bool(s: &str) -> (r: Option<bool>)
    ensures
        r == spec_parse_bool(s@),
{
    if str_eq(s, "true") {
        Some(true)
    } else if str_eq(s, "false") {
        Some(false)
    } else {
        None
    }
}

/// Relies on `String::push`: appends one character.
#[verifier::external_body]
pub fn push_char(s: &mut String, c: char)
    ensures
        final(s)@ == old(s)@ + seq![c],
{
    s.push(c);
}

/// ASCII upper-casing of one character; other characters are unchanged.
pub open spec fn spec_upper_char(c: char) -> char {
    if 'a' <= c && c <= 'z' {
        ((c as u8) - 32) as char
    } else {
        c
    }
}

pub open spec fn spec_ascii_upper(s: Seq<char>) -> Seq<char> {
    s.map_values(|c: char| spec_upper_char(c))
}

pub fn ascii_upper(s: &str) -> (r: String)
    ensures
        r@ == spec_ascii_upper(s@),
{
    let len = s.unicode_len();
    let mut r = String::new();
    let mut i: usize = 0;
    while i < len
        invariant
            len == s@.len(),
            i <= len,
            r@ == spec_ascii_upper(s@).take(i as int),
        decreases len - i,
    {
        let c = s.get_char(i);
        let u = if 'a' <= c && c <= 'z' {
            (((c as u8) - 32) as char)
        } else {
            c
        };
        assert(u == spec_upper_char(c));
        push_char(&mut r, u);
        proof {
            assert(r@ =~= spec_ascii_upper(s@).take(i + 1));
        }
        i = i + 1;
    }
    proof {
        assert(r@ =~= spec_ascii_upper(s@));
    }
    r
}

/// A control character: the first 32 code points and delete.
pub open spec fn is_ctl_char(c: char) -> bool {
    (c as u32) < 32 || (c as u32) == 127
}

/// A character a request-origin term may carry into a quoted position of
/// the filter text: anything but quote, backslash and control characters.
pub open spec fn safe_term_char(c: char) -> bool {
    !is_ctl_char(c) && c != '"' && c != '\\'
}

/// A term that is safe to splice between double quotes.
pub open spec fn safe_term(s: Seq<char>) -> bool {
    forall|i: int| 0 <= i < s.len() ==> safe_term_char(#[trigger] s[i])
}

pub fn check_safe_term(s: &str) -> (r: bool)
    ensures
        r == safe_term(s@),
{
    let len = s.unicode_len();
    let mut i: usize = 0;
    while i < len
        invariant
            len == s@.len(),
            i <= len,
            forall|j: int| 0 <= j < i ==> safe_term_char(#[trigger] s@[j]),
        decreases len - i,
    {
        let c = s.get_char(i);
        let u = c as u32;
        if u < 32 || u == 127 || c == '"' || c == '\\' {
            return false;
        }
        i = i + 1;
    }
    true
}

/// A character that may stand in a trusted identifier spliced into the
/// query text: letters, digits and underscore.
pub open spec fn ident_char(c: char) -> bool {
    ('a' <= c && c <= 'z') || ('A' <= c && c <= 'Z') || ('0' <= c && c <= '9') || c == '_'
}

/// A non-empty identifier.
pub open spec fn ident_str(s: Seq<char>) -> bool {
    s.len() > 0 && forall|i: int| 0 <= i < s.len() ==> ident_char(#[trigger] s[i])
}

/// A non-empty dotted path: identifier characters and dots.
pub open spec fn path_ident(s: Seq<char>) -> bool {
    s.len() > 0 && forall|i: int| 0 <= i < s.len() ==> ident_char(#[trigger] s[i]) || s[i] == '.'
}

pub fn check_path_ident(s: &str) -> (r: bool)
    ensures
        r == path_ident(s@),
{
    let len = s.unicode_len();
    if len == 0 {
        return false;
    }
    let mut i: usize = 0;
    while i < len
        invariant
            len == s@.len(),
            i <= len,
            forall|j: int| 0 <= j < i ==> ident_char(#[trigger] s@[j]) || s@[j] == '.',
        decreases len - i,
    {
        let c = s.get_char(i);
        let ok = ('a' <= c && c <= 'z') || ('A' <= c && c <= 'Z') || ('0' <= c && c <= '9')
            || c == '_' || c == '.';
        if !ok {
            return false;
        }
        i = i + 1;
    }
    true
}

/// Splitting on a separator, scanning from position `i` with the current
/// segment `cur` already collected: empty segments are kept, and the empty
/// string yields one empty segment.
pub open spec fn split_from(s: Seq<char>, sep: char, i: int, cur: Seq<char>) -> Seq<Seq<char>>
    decreases s.len() - i,
{
    if i < 0 || i >= s.len() {
        seq![cur]
    } else if s[i] == sep {
        seq![cur] + split_from(s, sep, i + 1, Seq::empty())
    } else {
        split_from(s, sep, i + 1, cur.push(s[i]))
    }
}

/// The segments of `s` between occurrences of `sep`.
pub open spec fn spec_split(s: Seq<char>, sep: char) -> Seq<Seq<char>> {
    split_from(s, sep, 0, Seq::empty())
}

pub fn split_char(s: &str, sep: char) -> (r: Vec<String>)
    ensures
        r.deep_view() == spec_split(s@, sep),
        r.len() > 0,
{
    let len = s.unicode_len();
    let mut r: Vec<String> = Vec::new();
    let mut cur = String::new();
    let mut i: usize = 0;
    proof {
        assert(r.deep_view() =~= Seq::<Seq<char>>::empty());
        assert(r.deep_view() + split_from(s@, sep, 0, cur@) =~= split_from(s@, sep, 0, cur@));
    }
    while i < len
        invariant
            len == s@.len(),
            i <= len,
            spec_split(s@, sep) == r.deep_view() + split_from(s@, sep, i as int, cur@),
        decreases len - i,
    {
        let c = s.get_char(i);
        if c == sep {
            let ghost prev = r.deep_view();
            let ghost pcur = cur@;
            r.push(cur);
            cur = String::new();
            proof {
                assert(r.deep_view() =~= prev.push(pcur));
                assert(split_from(s@, sep, i as int, pcur) == seq![pcur] + split_from(
                    s@,
                    sep,
                    i + 1,
                    Seq::empty(),
                ));
                assert(prev.push(pcur) + split_from(s@, sep, i + 1, cur@) =~= prev + (seq![pcur]
                    + split_from(s@, sep, i + 1, cur@)));
            }
        } else {
            let ghost pcur = cur@;
            push_char(&mut cur, c);
            proof {
                assert(cur@ =~= pcur.push(s@[i as int]));
            }
        }
        i = i + 1;
    }
    let ghost prev = r.deep_view();
    let ghost pcur = cur@;
    r.push(cur);
    proof {
        assert(r.deep_view() =~= prev.push(pcur));
        assert(split_from(s@, sep, len as int, pcur) == seq![pcur]);
        assert(prev.push(pcur) =~= prev + seq![pcur]);
    }
    r
}

/// The tail of a joined rendering: separator then element, from index `i`.
pub open spec fn join_tail(parts: Seq<Seq<char>>, sep: Seq<char>, i: int) -> Seq<char>
    decreases parts.len() - i,
{
    if i < 0 || i >= parts.len() {
        Seq::empty()
    } else {
        sep + parts[i] + join_tail(parts, sep, i + 1)
    }
}

/// The elements of `parts` concatenated with `sep` between neighbours.
pub open spec fn spec_join(parts: Seq<Seq<char>>, sep: Seq<char>) -> Seq<char> {
    if parts.len() == 0 {
        Seq::empty()
    } else {
        parts[0] + join_tail(parts, sep, 1)
    }
}

pub fn join_strings(parts: &Vec<String>, sep: &str) -> (r: String)
    ensures
        r@ == spec_join(parts.deep_view(), sep@),
{
    let mut r = String::new();
    if parts.len() == 0 {
        return r;
    }
    r.append(parts[0].as_str());
    let mut i: usize = 1;
    while i < parts.len()
        invariant
            1 <= i <= parts@.len(),
            parts@.len() > 0,
            spec_join(parts.deep_view(), sep@) == r@ + join_tail(
                parts.deep_view(),
                sep@,
                i as int,
            ),
        decreases parts@.len() - i,
    {
        r.append(sep);
        r.append(parts[i].as_str());
        i = i + 1;
    }
    r
}

/// The hexadecimal digit character for `n` in `0..16`, lower case.
pub open spec fn hex_digit(n: int) -> char {
    if n < 10 {
        digit_char(n)
    } else if n == 10 { 'a' }
    else if n == 11 { 'b' }
    else if n == 12 { 'c' }
    else if n == 13 { 'd' }
    else if n == 14 { 'e' }
    else { 'f' }
}

/// The JSON escape of one character: quote, backslash and the named control
/// characters get a two-character escape, other control characters the
/// `\u00..` form, and everything else stands for itself.
pub open spec fn esc_char(c: char) -> Seq<char> {
    if c == '"' {
        seq!['\\', '"']
    } else if c == '\\' {
        seq!['\\', '\\']
    } else if c == '\u{8}' {
        seq!['\\', 'b']
    } else if c == '\u{c}' {
        seq!['\\', 'f']
    } else if c == '\n' {
        seq!['\\', 'n']
    } else if c == '\r' {
        seq!['\\', 'r']
    } else if c == '\t' {
        seq!['\\', 't']
    } else if (c as u32) < 32 {
        seq!['\\', 'u', '0', '0', hex_digit((c as u32) as int / 16), hex_digit(
            (c as u32) as int % 16,
        )]
    } else {
        seq![c]
    }
}

pub open spec fn spec_escape(s: Seq<char>) -> Seq<char>
    decreases s.len(),
{
    if s.len() == 0 {
        Seq::empty()
    } else {
        spec_escape(s.drop_last()) + esc_char(s.last())
    }
}

/// The JSON rendering of a string value: escaped and double-quoted.
pub open spec fn spec_json_quote(s: Seq<char>) -> Seq<char> {
    seq!['"'] + spec_escape(s) + seq!['"']
}

fn push_esc(r: &mut String, c: char)
    ensures
        final(r)@ == old(r)@ + esc_char(c),
{
    let u = c as u32;
    if c == '"' {
        push_char(r, '\\');
        push_char(r, '"');
    } else if c == '\\' {
        push_char(r, '\\');
        push_char(r, '\\');
    } else if u == 8 {
        push_char(r, '\\');
        push_char(r, 'b');
    } else if u == 12 {
        push_char(r, '\\');
        push_char(r, 'f');
    } else if c == '\n' {
        push_char(r, '\\');
        push_char(r, 'n');
    } else if c == '\r' {
        push_char(r, '\\');
        push_char(r, 'r');
    } else if c == '\t' {
        push_char(r, '\\');
        push_char(r, 't');
    } else if u < 32 {
        push_char(r, '\\');
        push_char(r, 'u');
        push_char(r, '0');
        push_char(r, '0');
        let hi = u / 16;
        let lo = u % 16;
        let hc = if hi == 0 { '0' } else { '1' };
        let lc = if lo == 0 { '0' }
        else if lo == 1 { '1' }
        else if lo == 2 { '2' }
        else if lo == 3 { '3' }
        else if lo == 4 { '4' }
        else if lo == 5 { '5' }
        else if lo == 6 { '6' }
        else if lo == 7 { '7' }
        else if lo == 8 { '8' }
        else if lo == 9 { '9' }
        else if lo == 10 { 'a' }
        else if lo == 11 { 'b' }
        else if lo == 12 { 'c' }
        else if lo == 13 { 'd' }
        else if lo == 14 { 'e' }
        else { 'f' };
        push_char(r, hc);
        push_char(r, lc);
        proof {
            assert(old(r)@ + seq!['\\'] + seq!['u'] + seq!['0'] + seq!['0'] + seq![hc] + seq![lc]
                =~= old(r)@ + esc_char(c));
        }
    } else {
        push_char(r, c);
    }
    proof {
        assert(final(r)@ =~= old(r)@ + esc_char(c));
    }
}

/// Renders a request value as a JSON string literal.
pub fn json_quote(s: &str) -> (r: String)
    ensures
        r@ == spec_json_quote(s@),
{
    let len = s.unicode_len();
    let mut r = String::new();
    push_char(&mut r, '"');
    let mut i: usize = 0;
    while i < len
        invariant
            len == s@.len(),
            i <= len,
            r@ == seq!['"'] + spec_escape(s@.take(i as int)),
        decreases len - i,
    {
        let c = s.get_char(i);
        push_esc(&mut r, c);
        proof {
            assert(s@.take(i + 1).drop_last() =~= s@.take(i as int));
            assert(s@.take(i + 1).last() == s@[i as int]);
            assert(r@ =~= seq!['"'] + spec_escape(s@.take(i + 1)));
        }
        i = i + 1;
    }
    push_char(&mut r, '"');
    proof {
        assert(s@.take(len as int) =~= s@);
        assert(r@ =~= spec_json_quote(s@));
    }
    r
}

} // verus!
