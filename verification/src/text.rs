//! Character classification and small string utilities shared by the
//! parsing and formatting code.
//!
//! Exec code works over `Vec<char>`; contracts speak of `Seq<char>`.
use vstd::prelude::*;
use vstd::string::StrSliceExecFns;

verus! {

// ---------------------------------------------------------------------------
// Unicode character classes
// ---------------------------------------------------------------------------

pub uninterp spec fn unicode_whitespace(c: char) -> bool;

pub uninterp spec fn unicode_control(c: char) -> bool;

/// Relies on `char::is_whitespace`: the result depends on the character
/// alone (the `White_Space` Unicode property); space, tab, newline and
/// carriage return are documented members.
#[verifier::external_body]
pub(crate) fn char_is_whitespace(c: char) -> (r: bool)
    ensures
        r == unicode_whitespace(c),
        c == ' ' || c == '\n' || c == '\t' || c == '\r' ==> r,
{
    c.is_whitespace()
}

/// Relies on `char::is_control`: the result depends on the character alone
/// (the `Cc` Unicode category).
#[verifier::external_body]
pub(crate) fn char_is_control(c: char) -> (r: bool)
    ensures
        r == unicode_control(c),
{
    c.is_control()
}

pub open spec fn spec_ascii_digit(c: char) -> bool {
    '0' <= c && c <= '9'
}

pub open spec fn spec_ascii_alphanumeric(c: char) -> bool {
    ('0' <= c && c <= '9') || ('a' <= c && c <= 'z') || ('A' <= c && c <= 'Z')
}

pub fn is_ascii_digit_char(c: char) -> (r: bool)
    ensures
        r == spec_ascii_digit(c),
{
    '0' <= c && c <= '9'
}

pub fn is_ascii_alphanumeric_char(c: char) -> (r: bool)
    ensures
        r == spec_ascii_alphanumeric(c),
{
    ('0' <= c && c <= '9') || ('a' <= c && c <= 'z') || ('A' <= c && c <= 'Z')
}

/// ASCII lower-casing of one character; other characters are unchanged.
pub open spec fn spec_ascii_lower(c: char) -> char {
    if 'A' <= c && c <= 'Z' {
        ((c as u32) + 32) as char
    } else {
        c
    }
}

pub fn ascii_lower_char(c: char) -> (r: char)
    ensures
        r == spec_ascii_lower(c),
{
    if 'A' <= c && c <= 'Z' {
        (((c as u32) + 32) as u8) as char
    } else {
        c
    }
}

// ---------------------------------------------------------------------------
// String <-> character vector
// ---------------------------------------------------------------------------

/// The characters of a string slice, in order.
pub fn str_chars(s: &str) -> (r: Vec<char>)
    ensures
        r@ == s@,
{
    let n = s.unicode_len();
    let mut r: Vec<char> = Vec::new();
    let mut i: usize = 0;
    while i < n
        invariant
            i <= n,
            n == s@.len(),
            r@ == s@.take(i as int),
        decreases n - i,
    {
        r.push(s.get_char(i));
        assert(r@ =~= s@.take(i + 1));
        i += 1;
    }
    assert(r@ =~= s@);
    r
}

/// Relies on `Iterator::collect` for `String`, which builds a string from
/// its characters in order.
#[verifier::external_body]
pub(crate) fn chars_to_string(v: &Vec<char>) -> (r: String)
    ensures
        r@ == v@,
{
    v.iter().collect()
}

// ---------------------------------------------------------------------------
// Trimming
// ---------------------------------------------------------------------------

pub open spec fn trim_leading(s: Seq<char>) -> Seq<char>
    decreases s.len(),
{
    if s.len() > 0 && unicode_whitespace(s[0]) {
        trim_leading(s.drop_first())
    } else {
        s
    }
}

pub open spec fn trim_trailing(s: Seq<char>) -> Seq<char>
    decreases s.len(),
{
    if s.len() > 0 && unicode_whitespace(s.last()) {
        trim_trailing(s.drop_last())
    } else {
        s
    }
}

/// What `str::trim` leaves: the string without leading and trailing
/// whitespace.
pub open spec fn trim_ws(s: Seq<char>) -> Seq<char> {
    trim_trailing(trim_leading(s))
}

pub proof fn lemma_trim_leading_len(s: Seq<char>)
    ensures
        trim_leading(s).len() <= s.len(),
    decreases s.len(),
{
    if s.len() > 0 && unicode_whitespace(s[0]) {
        lemma_trim_leading_len(s.drop_first());
    }
}

pub proof fn lemma_trim_trailing_len(s: Seq<char>)
    ensures
        trim_trailing(s).len() <= s.len(),
    decreases s.len(),
{
    if s.len() > 0 && unicode_whitespace(s.last()) {
        lemma_trim_trailing_len(s.drop_last());
    }
}

pub proof fn lemma_trim_ws_len(s: Seq<char>)
    ensures
        trim_ws(s).len() <= s.len(),
{
    lemma_trim_leading_len(s);
    lemma_trim_trailing_len(trim_leading(s));
}

/// The characters of `v` without leading and trailing whitespace.
pub fn trim_chars(v: &Vec<char>) -> (r: Vec<char>)
    ensures
        r@ == trim_ws(v@),
{
    let mut lo: usize = 0;
    proof {
        assert(v@.skip(0) =~= v@);
    }
    while lo < v.len() && char_is_whitespace(v[lo])
        invariant
            lo <= v@.len(),
            trim_leading(v@) == trim_leading(v@.skip(lo as int)),
        decreases v@.len() - lo,
    {
        proof {
            assert(v@.skip(lo as int).drop_first() =~= v@.skip(lo as int + 1));
        }
        lo += 1;
    }
    proof {
        assert(trim_leading(v@.skip(lo as int)) == v@.skip(lo as int));
    }
    let mut hi: usize = v.len();
    proof {
        assert(v@.skip(lo as int).take(v@.len() - lo as int) =~= v@.skip(lo as int));
    }
    while hi > lo && char_is_whitespace(v[hi - 1])
        invariant
            lo <= hi <= v@.len(),
            trim_leading(v@) == v@.skip(lo as int),
            trim_trailing(v@.skip(lo as int)) == trim_trailing(
                v@.skip(lo as int).take(hi - lo as int),
            ),
        decreases hi,
    {
        proof {
            assert(v@.skip(lo as int).take(hi - lo as int).drop_last() =~= v@.skip(
                lo as int,
            ).take(hi - 1 - lo as int));
        }
        hi -= 1;
    }
    let mut r: Vec<char> = Vec::new();
    let mut i: usize = lo;
    while i < hi
        invariant
            lo <= i <= hi <= v@.len(),
            r@ == v@.subrange(lo as int, i as int),
        decreases hi - i,
    {
        r.push(v[i]);
        assert(r@ =~= v@.subrange(lo as int, i + 1));
        i += 1;
    }
    proof {
        assert(v@.skip(lo as int).take(hi - lo as int) =~= v@.subrange(lo as int, hi as int));
        if hi > lo {
            assert(trim_trailing(v@.subrange(lo as int, hi as int)) == v@.subrange(
                lo as int,
                hi as int,
            ));
        } else {
            assert(v@.subrange(lo as int, hi as int) =~= Seq::<char>::empty());
        }
    }
    r
}

/// Whether `s` reads as `lit`.
pub fn string_eq_str(s: &String, lit: &str) -> (r: bool)
    ensures
        r == (s@ == lit@),
{
    let l = lit.to_owned();
    *s == l
}


// ---------------------------------------------------------------------------
// Splitting
// ---------------------------------------------------------------------------

/// The index of the first occurrence of `sep`, or the length when absent.
pub open spec fn find_char(s: Seq<char>, sep: char) -> int
    decreases s.len(),
{
    if s.len() == 0 {
        0
    } else if s[0] == sep {
        0
    } else {
        1 + find_char(s.drop_first(), sep)
    }
}

pub proof fn lemma_find_char_prefix(pre: Seq<char>, rest: Seq<char>, sep: char)
    requires
        forall|j: int| 0 <= j < pre.len() ==> pre[j] != sep,
        rest.len() > 0 && rest[0] == sep,
    ensures
        find_char(pre + rest, sep) == pre.len(),
    decreases pre.len(),
{
    if pre.len() == 0 {
        assert(pre + rest =~= rest);
    } else {
        assert((pre + rest).drop_first() =~= pre.drop_first() + rest);
        assert(forall|j: int| 0 <= j < pre.drop_first().len() ==> pre.drop_first()[j] != sep);
        lemma_find_char_prefix(pre.drop_first(), rest, sep);
        assert((pre + rest)[0] == pre[0]);
    }
}

pub proof fn lemma_find_char_absent(s: Seq<char>, sep: char)
    requires
        forall|j: int| 0 <= j < s.len() ==> s[j] != sep,
    ensures
        find_char(s, sep) == s.len(),
    decreases s.len(),
{
    if s.len() > 0 {
        assert(forall|j: int| 0 <= j < s.drop_first().len() ==> s.drop_first()[j] != sep);
        lemma_find_char_absent(s.drop_first(), sep);
    }
}

/// What `str::split` yields on a separator character: the (possibly
/// empty) pieces between occurrences, the empty string itself giving one
/// empty piece.
pub open spec fn spec_split(s: Seq<char>, sep: char) -> Seq<Seq<char>>
    decreases s.len(),
{
    let i = find_char(s, sep);
    if 0 <= i < s.len() {
        seq![s.take(i)] + spec_split(s.skip(i + 1), sep)
    } else {
        seq![s]
    }
}

pub fn split_char(v: &Vec<char>, sep: char) -> (r: Vec<Vec<char>>)
    ensures
        r.deep_view() == spec_split(v@, sep),
{
    let mut r: Vec<Vec<char>> = Vec::new();
    let mut cur: Vec<char> = Vec::new();
    let mut i: usize = 0;
    proof {
        assert(cur@ + v@.skip(0) =~= v@);
        assert(r.deep_view() + spec_split(v@, sep) =~= spec_split(v@, sep));
    }
    while i < v.len()
        invariant
            i <= v@.len(),
            forall|j: int| 0 <= j < cur@.len() ==> cur@[j] != sep,
            spec_split(v@, sep) == r.deep_view() + spec_split(cur@ + v@.skip(i as int), sep),
        decreases v@.len() - i,
    {
        let c = v[i];
        if c == sep {
            proof {
                let whole = cur@ + v@.skip(i as int);
                lemma_find_char_prefix(cur@, v@.skip(i as int), sep);
                assert(whole.take(cur@.len() as int) =~= cur@);
                assert(whole.skip(cur@.len() as int + 1) =~= v@.skip(i as int + 1));
            }
            let ghost r0 = r.deep_view();
            let ghost closed = cur@;
            let done = cur;
            cur = Vec::new();
            r.push(done);
            proof {
                assert(r.deep_view() =~~= r0.push(closed));
                assert(r0.push(closed) =~= r0 + seq![closed]);
                assert(cur@ + v@.skip(i as int + 1) =~= v@.skip(i as int + 1));
                assert(spec_split(v@, sep) =~= r.deep_view() + spec_split(
                    cur@ + v@.skip(i as int + 1),
                    sep,
                ));
            }
        } else {
            let ghost cur0 = cur@;
            cur.push(c);
            proof {
                assert(cur@ + v@.skip(i as int + 1) =~= cur0 + v@.skip(i as int));
            }
        }
        i += 1;
    }
    proof {
        let whole = cur@ + v@.skip(v@.len() as int);
        assert(whole =~= cur@);
        lemma_find_char_absent(cur@, sep);
    }
    let ghost r0 = r.deep_view();
    let ghost closed = cur@;
    r.push(cur);
    proof {
        assert(r.deep_view() =~~= r0.push(closed));
        assert(r0.push(closed) =~= r0 + seq![closed]);
        assert(spec_split(v@, sep) =~= r.deep_view());
    }
    r
}

/// A line as `str::lines` yields it: without one trailing carriage
/// return.
pub open spec fn strip_cr(l: Seq<char>) -> Seq<char> {
    if l.len() > 0 && l.last() == '\r' {
        l.drop_last()
    } else {
        l
    }
}

/// What `str::lines` yields: the text split at newlines, a final line
/// ending being optional. A carriage return is removed only as part of a
/// `\r\n` ending, so an unterminated final line keeps a trailing `\r`.
pub open spec fn spec_lines(s: Seq<char>) -> Seq<Seq<char>> {
    if s.len() == 0 {
        Seq::empty()
    } else if s.last() == '\n' {
        spec_split(s.drop_last(), '\n').map_values(|l: Seq<char>| strip_cr(l))
    } else {
        let ps = spec_split(s, '\n');
        ps.drop_last().map_values(|l: Seq<char>| strip_cr(l)).push(ps.last())
    }
}

pub fn split_lines(v: &Vec<char>) -> (r: Vec<Vec<char>>)
    ensures
        r.deep_view() == spec_lines(v@),
{
    let mut r: Vec<Vec<char>> = Vec::new();
    if v.len() == 0 {
        proof {
            assert(r.deep_view() =~= spec_lines(v@));
        }
        return r;
    }
    let ended_nl = v[v.len() - 1] == '\n';
    let mut w: Vec<char> = Vec::new();
    let upto: usize = if ended_nl {
        v.len() - 1
    } else {
        v.len()
    };
    let mut i: usize = 0;
    while i < upto
        invariant
            i <= upto <= v@.len(),
            w@ == v@.take(i as int),
        decreases upto - i,
    {
        w.push(v[i]);
        assert(w@ =~= v@.take(i + 1));
        i += 1;
    }
    proof {
        if v@.last() == '\n' {
            assert(w@ =~= v@.drop_last());
        } else {
            assert(w@ =~= v@);
        }
    }
    let parts = split_char(&w, '\n');
    let ghost target = spec_lines(v@);
    let ghost ps = parts.deep_view();
    let mut j: usize = 0;
    proof {
        assert(ps.len() >= 1);
        if ended_nl {
            assert(target == ps.map_values(|l: Seq<char>| strip_cr(l)));
        } else {
            assert(target == ps.drop_last().map_values(|l: Seq<char>| strip_cr(l)).push(
                ps.last(),
            ));
        }
        assert(target.len() == ps.len());
        assert(parts@.len() == ps.len());
    }
    while j < parts.len()
        invariant
            j <= parts@.len(),
            parts@.len() == ps.len(),
            ps == parts.deep_view(),
            ps.len() >= 1,
            ended_nl ==> target == ps.map_values(|l: Seq<char>| strip_cr(l)),
            !ended_nl ==> target == ps.drop_last().map_values(|l: Seq<char>| strip_cr(l)).push(
                ps.last(),
            ),
            target.len() == ps.len(),
            r.deep_view() == target.take(j as int),
        decreases parts@.len() - j,
    {
        proof {
            assert(parts@[j as int]@ == ps[j as int]);
            if ended_nl || j + 1 < ps.len() {
                assert(target[j as int] == strip_cr(ps[j as int]));
            } else {
                assert(target[j as int] == ps[j as int]);
            }
        }
        let line = &parts[j];
        // A carriage return is stripped only from a line that a newline
        // terminated: every line but possibly the unterminated last one.
        let strip_this = ended_nl || j + 1 < parts.len();
        let mut out: Vec<char> = Vec::new();
        let end: usize = if strip_this && line.len() > 0 && line[line.len() - 1] == '\r' {
            line.len() - 1
        } else {
            line.len()
        };
        let mut k: usize = 0;
        while k < end
            invariant
                k <= end <= line@.len(),
                out@ == line@.take(k as int),
            decreases end - k,
        {
            out.push(line[k]);
            assert(out@ =~= line@.take(k + 1));
            k += 1;
        }
        proof {
            if strip_this {
                assert(out@ =~= strip_cr(line@));
            } else {
                assert(out@ =~= line@);
            }
            assert(out@ == target[j as int]);
        }
        let ghost r0 = r.deep_view();
        let ghost ov = out@;
        r.push(out);
        proof {
            assert(r.deep_view() =~~= r0.push(ov));
            assert(r.deep_view() =~= target.take(j as int + 1));
        }
        j += 1;
    }
    proof {
        assert(target.take(target.len() as int) =~= target);
    }
    r
}

// ---------------------------------------------------------------------------
// Decimal parsing
// ---------------------------------------------------------------------------

pub open spec fn digit_val(c: char) -> nat {
    if spec_ascii_digit(c) {
        (c as u32 - 48) as nat
    } else {
        0
    }
}

/// The value of a digit string, most significant digit first.
pub open spec fn dec_value(s: Seq<char>) -> nat
    decreases s.len(),
{
    if s.len() == 0 {
        0
    } else {
        dec_value(s.drop_last()) * 10 + digit_val(s.last())
    }
}

/// The digits of a decimal rendering: what stands after an optional
/// leading plus sign.
pub open spec fn parse_body(s: Seq<char>) -> Seq<char> {
    if s.len() > 0 && s[0] == '+' {
        s.drop_first()
    } else {
        s
    }
}

pub open spec fn all_ascii_digits(s: Seq<char>) -> bool {
    forall|j: int| 0 <= j < s.len() ==> spec_ascii_digit(s[j])
}

/// What `str::parse::<u32>().unwrap_or(0)` gives: the value of the
/// digits, after an optional leading plus sign, when they are all digits
/// and the value fits; otherwise 0.
pub open spec fn spec_parse_u32_or_zero(s: Seq<char>) -> u32 {
    if parse_body(s).len() > 0 && all_ascii_digits(parse_body(s)) && dec_value(parse_body(s))
        <= u32::MAX {
        dec_value(parse_body(s)) as u32
    } else {
        0
    }
}

pub fn parse_u32_or_zero(v: &Vec<char>) -> (r: u32)
    ensures
        r == spec_parse_u32_or_zero(v@),
{
    let start: usize = if v.len() > 0 && v[0] == '+' {
        1
    } else {
        0
    };
    let ghost body = parse_body(v@);
    proof {
        assert(body =~= v@.subrange(start as int, v@.len() as int));
    }
    if v.len() == start {
        proof {
            assert(body.len() == 0);
            assert(0 == spec_parse_u32_or_zero(v@));
        }
        return 0;
    }
    let mut acc: u64 = 0;
    let mut all_digits = true;
    let mut i: usize = start;
    proof {
        assert(body.take(0) =~= Seq::<char>::empty());
    }
    while i < v.len()
        invariant
            start <= i <= v@.len(),
            start <= 1,
            start < v@.len(),
            body == v@.subrange(start as int, v@.len() as int),
            all_digits ==> forall|j: int| 0 <= j < i - start ==> spec_ascii_digit(body[j]),
            !all_digits ==> exists|j: int|
                0 <= j < i - start && !spec_ascii_digit(body[j]),
            all_digits && dec_value(body.take(i - start)) <= u32::MAX ==> acc == dec_value(
                body.take(i - start),
            ),
            all_digits && dec_value(body.take(i - start)) > u32::MAX ==> acc > u32::MAX,
            acc <= 0xFFFF_FFFFFu64,
        decreases v@.len() - i,
    {
        let c = v[i];
        proof {
            assert(body[i - start] == v@[i as int]);
            assert(body.take(i - start + 1).drop_last() =~= body.take(i - start));
            assert(body.take(i - start + 1).last() == body[i - start]);
            assert(dec_value(body.take(i - start + 1)) == dec_value(body.take(i - start)) * 10
                + digit_val(body[i - start]));
        }
        let ghost dec0 = dec_value(body.take(i - start));
        let ghost dec1 = dec_value(body.take(i - start + 1));
        if is_ascii_digit_char(c) {
            let d: u32 = (c as u32) - 48;
            proof {
                assert(digit_val(body[i - start]) == d as nat);
            }
            if all_digits {
                if acc > u32::MAX as u64 {
                    acc = 0x1_0000_0000u64;
                    proof {
                        assert(dec0 > u32::MAX);
                        assert(dec1 >= dec0 * 10);
                        assert(dec0 * 10 >= dec0);
                        assert(dec1 > u32::MAX);
                    }
                } else {
                    proof {
                        assert(dec0 <= u32::MAX);
                        assert(acc == dec0);
                    }
                    acc = acc * 10 + (d as u64);
                    proof {
                        assert(acc == dec1);
                    }
                }
            }
        } else {
            proof {
                assert(!spec_ascii_digit(body[i - start]));
            }
            all_digits = false;
        }
        i += 1;
    }
    proof {
        assert(body.take(v@.len() - start) =~= body);
        assert(body.len() == v@.len() - start);
    }
    if all_digits && acc <= u32::MAX as u64 {
        proof {
            assert(dec_value(body) <= u32::MAX && acc == dec_value(body));
            assert(body.len() > 0);
            assert(all_ascii_digits(body));
        }
        acc as u32
    } else {
        proof {
            if all_digits {
                assert(dec_value(body) > u32::MAX);
            } else {
                let j = choose|j: int| 0 <= j < v@.len() - start && !spec_ascii_digit(body[j]);
                assert(!all_ascii_digits(body));
            }
        }
        0
    }
}

/// Append the characters of `lit`.
pub fn push_str_chars(lit: &str, out: &mut Vec<char>)
    ensures
        final(out)@ == old(out)@ + lit@,
{
    let chars = str_chars(lit);
    let ghost cs = chars@;
    let ghost base = out@;
    let mut i: usize = 0;
    proof {
        assert(base + cs.take(0) =~= base);
    }
    while i < chars.len()
        invariant
            i <= cs.len(),
            cs == chars@,
            cs == lit@,
            out@ == base + cs.take(i as int),
        decreases cs.len() - i,
    {
        out.push(chars[i]);
        assert(out@ =~= base + cs.take(i + 1));
        i += 1;
    }
    proof {
        assert(cs.take(cs.len() as int) =~= cs);
    }
}

// ---------------------------------------------------------------------------
// Searching
// ---------------------------------------------------------------------------

/// Whether `pat` occurs in `s` starting at `i`.
pub open spec fn occurs_at(s: Seq<char>, pat: Seq<char>, i: int) -> bool {
    0 <= i && i + pat.len() <= s.len() && s.subrange(i, i + pat.len()) == pat
}

pub open spec fn spec_starts_with(s: Seq<char>, pat: Seq<char>) -> bool {
    occurs_at(s, pat, 0)
}

pub open spec fn spec_contains_sub(s: Seq<char>, pat: Seq<char>) -> bool {
    exists|i: int| occurs_at(s, pat, i)
}

/// Whether `pat` stands at position `i` of `v`.
pub fn occurs_at_index(v: &Vec<char>, pat: &Vec<char>, i: usize) -> (r: bool)
    requires
        i + pat@.len() <= v@.len(),
    ensures
        r == occurs_at(v@, pat@, i as int),
{
    let n = v.len();
    let m = pat.len();
    let mut k: usize = 0;
    while k < m
        invariant
            k <= m,
            m == pat@.len(),
            n == v@.len(),
            i + pat@.len() <= v@.len(),
            forall|j: int| 0 <= j < k ==> v@[i + j] == pat@[j],
        decreases m - k,
    {
        if v[i + k] != pat[k] {
            proof {
                assert(v@.subrange(i as int, i + pat@.len())[k as int] != pat@[k as int]);
            }
            return false;
        }
        k += 1;
    }
    proof {
        assert(v@.subrange(i as int, i + pat@.len()) =~= pat@);
    }
    true
}

/// The first position where `pat` occurs in `v`, if any.
pub fn find_sub(v: &Vec<char>, pat: &Vec<char>) -> (r: Option<usize>)
    ensures
        match r {
            Some(i) => occurs_at(v@, pat@, i as int) && forall|j: int|
                0 <= j < i ==> !occurs_at(v@, pat@, j),
            None => !spec_contains_sub(v@, pat@),
        },
{
    let n = v.len();
    let m = pat.len();
    if m > n {
        proof {
            assert forall|i: int| !occurs_at(v@, pat@, i) by {}
        }
        return None;
    }
    if m == 0 {
        proof {
            assert(v@.subrange(0, 0) =~= pat@);
        }
        return Some(0);
    }
    let mut i: usize = 0;
    while i <= n - m
        invariant
            m == pat@.len(),
            n == v@.len(),
            1 <= m <= n,
            i <= n - m + 1,
            forall|j: int| 0 <= j < i ==> !occurs_at(v@, pat@, j),
        decreases n - m + 1 - i,
    {
        if occurs_at_index(v, pat, i) {
            return Some(i);
        }
        i += 1;
    }
    proof {
        assert forall|j: int| !occurs_at(v@, pat@, j) by {
            if 0 <= j && j + pat@.len() <= v@.len() {
                assert(j < i);
            }
        }
    }
    None
}

/// Whether `v` begins with `pat`.
pub fn starts_with_chars(v: &Vec<char>, pat: &Vec<char>) -> (r: bool)
    ensures
        r == spec_starts_with(v@, pat@),
{
    let n = v.len();
    if pat.len() > n {
        return false;
    }
    occurs_at_index(v, pat, 0)
}

/// Whether `pat` occurs anywhere in `v`.
pub fn contains_sub(v: &Vec<char>, pat: &Vec<char>) -> (r: bool)
    ensures
        r == spec_contains_sub(v@, pat@),
{
    find_sub(v, pat).is_some()
}

/// ASCII lower-casing of a whole string, character by character.
pub open spec fn spec_ascii_lower_seq(s: Seq<char>) -> Seq<char> {
    s.map_values(|c: char| spec_ascii_lower(c))
}

pub fn ascii_lower_chars(v: &Vec<char>) -> (r: Vec<char>)
    ensures
        r@ == spec_ascii_lower_seq(v@),
{
    let mut r: Vec<char> = Vec::new();
    let mut i: usize = 0;
    proof {
        assert(r@ =~= spec_ascii_lower_seq(v@).take(0));
    }
    while i < v.len()
        invariant
            i <= v@.len(),
            r@ == spec_ascii_lower_seq(v@).take(i as int),
        decreases v@.len() - i,
    {
        r.push(ascii_lower_char(v[i]));
        assert(r@ =~= spec_ascii_lower_seq(v@).take(i + 1));
        i += 1;
    }
    proof {
        assert(spec_ascii_lower_seq(v@).take(v@.len() as int) =~= spec_ascii_lower_seq(v@));
    }
    r
}


/// The characters of `v` from `from` (inclusive) to `to` (exclusive).
pub fn slice_chars(v: &Vec<char>, from: usize, to: usize) -> (r: Vec<char>)
    requires
        from <= to <= v@.len(),
    ensures
        r@ == v@.subrange(from as int, to as int),
{
    let mut r: Vec<char> = Vec::new();
    let mut i: usize = from;
    proof {
        assert(r@ =~= v@.subrange(from as int, from as int));
    }
    while i < to
        invariant
            from <= i <= to <= v@.len(),
            r@ == v@.subrange(from as int, i as int),
        decreases to - i,
    {
        r.push(v[i]);
        assert(r@ =~= v@.subrange(from as int, i + 1));
        i += 1;
    }
    r
}

/// One-character strings.
pub fn char_string(c: char) -> (r: String)
    ensures
        r@ == seq![c],
{
    let mut v: Vec<char> = Vec::new();
    v.push(c);
    proof {
        assert(v@ =~= seq![c]);
    }
    chars_to_string(&v)
}

/// The index of the first occurrence of `pat`, or the length of `s` when
/// there is none.
pub open spec fn spec_find_sub(s: Seq<char>, pat: Seq<char>) -> int
    decreases s.len(),
{
    if occurs_at(s, pat, 0) {
        0
    } else if s.len() == 0 {
        0
    } else {
        1 + spec_find_sub(s.drop_first(), pat)
    }
}

pub proof fn lemma_occurs_shift(s: Seq<char>, pat: Seq<char>, j: int)
    requires
        j >= 1,
        s.len() >= 1,
    ensures
        occurs_at(s, pat, j) <==> occurs_at(s.drop_first(), pat, j - 1),
{
    if occurs_at(s, pat, j) {
        assert(s.drop_first().subrange(j - 1, j - 1 + pat.len()) =~= s.subrange(
            j,
            j + pat.len(),
        ));
    }
    if occurs_at(s.drop_first(), pat, j - 1) {
        assert(s.subrange(j, j + pat.len()) =~= s.drop_first().subrange(
            j - 1,
            j - 1 + pat.len(),
        ));
    }
}

pub proof fn lemma_spec_find_sub(s: Seq<char>, pat: Seq<char>)
    ensures
        0 <= spec_find_sub(s, pat) <= s.len(),
        spec_contains_sub(s, pat) ==> occurs_at(s, pat, spec_find_sub(s, pat)),
        forall|j: int| 0 <= j < spec_find_sub(s, pat) ==> !occurs_at(s, pat, j),
        !spec_contains_sub(s, pat) ==> spec_find_sub(s, pat) == s.len(),
    decreases s.len(),
{
    if occurs_at(s, pat, 0) {
    } else if s.len() == 0 {
        assert forall|j: int| !occurs_at(s, pat, j) by {
            if 0 <= j && j + pat.len() <= s.len() {
                assert(j == 0);
            }
        }
    } else {
        lemma_spec_find_sub(s.drop_first(), pat);
        assert forall|j: int| 1 <= j <= s.len() implies (occurs_at(s, pat, j) <==> occurs_at(
            s.drop_first(),
            pat,
            j - 1,
        )) by {
            lemma_occurs_shift(s, pat, j);
        }
        if spec_contains_sub(s, pat) {
            let j = choose|j: int| occurs_at(s, pat, j);
            assert(j >= 1);
            assert(occurs_at(s.drop_first(), pat, j - 1));
            assert(spec_contains_sub(s.drop_first(), pat));
        }
        if spec_contains_sub(s.drop_first(), pat) {
            let j = choose|j: int| occurs_at(s.drop_first(), pat, j);
            assert(occurs_at(s, pat, j + 1));
        }
        assert forall|j: int| 0 <= j < spec_find_sub(s, pat) implies !occurs_at(s, pat, j) by {
            if j >= 1 {
                assert(!occurs_at(s.drop_first(), pat, j - 1));
            }
        }
    }
}


} // verus!
