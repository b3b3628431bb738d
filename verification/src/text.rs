//! Character-level text utilities shared by the tokenizer and the validators:
//! case folding, string comparison, whitespace classification, line and token
//! splitting, and unsigned 8-bit literal parsing.

use vstd::prelude::*;
use vstd::string::StrSliceExecFns;
use vstd::string::StringExecFns;

verus! {

/// The case-folded form of a character sequence, as `str::to_lowercase`
/// computes it. The mapping depends on the characters alone.
pub uninterp spec fn lower_of(s: Seq<char>) -> Seq<char>;

/// Relies on `str::to_lowercase`: the Unicode lowercase mapping of the
/// string, a function of its characters alone.
#[verifier::external_body]
pub fn fold_case(s: &str) -> (r: String)
    ensures
        r@ == lower_of(s@),
{
    s.to_lowercase()
}

/// Character-wise string equality, by view.
pub fn str_eq(a: &str, b: &str) -> (r: bool)
    ensures
        r == (a@ == b@),
{
    let alen = a.unicode_len();
    let blen = b.unicode_len();
    if alen != blen {
        return false;
    }
    let mut i: usize = 0;
    while i < alen
        invariant
            alen == a@.len(),
            alen == b@.len(),
            i <= alen,
            forall|k: int| 0 <= k < i ==> a@[k] == b@[k],
        decreases alen - i,
    {
        if a.get_char(i) != b.get_char(i) {
            return false;
        }
        i = i + 1;
    }
    proof {
        assert(a@ =~= b@);
    }
    true
}

/// The views of a list of owned strings.
pub open spec fn strings_view(ts: Seq<String>) -> Seq<Seq<char>> {
    ts.map_values(|t: String| t@)
}

/// Unicode whitespace, the characters `str::split_whitespace` splits on.
pub open spec fn spec_is_whitespace(c: char) -> bool {
    ||| c == '\t'
    ||| c == '\n'
    ||| c == '\u{b}'
    ||| c == '\u{c}'
    ||| c == '\r'
    ||| c == ' '
    ||| c == '\u{85}'
    ||| c == '\u{a0}'
    ||| c == '\u{1680}'
    ||| (0x2000 <= c as u32 && c as u32 <= 0x200a)
    ||| c == '\u{2028}'
    ||| c == '\u{2029}'
    ||| c == '\u{202f}'
    ||| c == '\u{205f}'
    ||| c == '\u{3000}'
}

/// Whitespace test on a single character.
pub fn is_whitespace_char(c: char) -> (r: bool)
    ensures
        r == spec_is_whitespace(c),
{
    c == '\t' || c == '\n' || c == '\u{b}' || c == '\u{c}' || c == '\r' || c == ' ' || c
        == '\u{85}' || c == '\u{a0}' || c == '\u{1680}' || (0x2000 <= c as u32 && c as u32
        <= 0x200a) || c == '\u{2028}' || c == '\u{2029}' || c == '\u{202f}' || c == '\u{205f}' || c
        == '\u{3000}'
}

/// The end of the whitespace-free run that starts at `i`: the first position
/// at or after `i` holding whitespace, or the end of the text.
pub open spec fn token_end(s: Seq<char>, i: int) -> int
    decreases s.len() - i,
{
    if i < 0 || i >= s.len() || spec_is_whitespace(s[i]) {
        i
    } else {
        token_end(s, i + 1)
    }
}

pub proof fn lemma_token_end_bounds(s: Seq<char>, i: int)
    requires
        0 <= i <= s.len(),
    ensures
        i <= token_end(s, i) <= s.len(),
        i < s.len() && !spec_is_whitespace(s[i]) ==> i < token_end(s, i),
    decreases s.len() - i,
{
    if i < s.len() && !spec_is_whitespace(s[i]) {
        lemma_token_end_bounds(s, i + 1);
    }
}

/// The whitespace-separated tokens of `s`, from position `i` on.
pub open spec fn tokens_from(s: Seq<char>, i: int) -> Seq<Seq<char>>
    decreases s.len() - i,
    when 0 <= i
    via tokens_from_decreases
{
    if i >= s.len() {
        Seq::empty()
    } else if spec_is_whitespace(s[i]) {
        tokens_from(s, i + 1)
    } else {
        seq![s.subrange(i, token_end(s, i))] + tokens_from(s, token_end(s, i))
    }
}

#[via_fn]
proof fn tokens_from_decreases(s: Seq<char>, i: int) {
    if 0 <= i < s.len() && !spec_is_whitespace(s[i]) {
        lemma_token_end_bounds(s, i);
    }
}

/// The whitespace-separated tokens of one line of text.
pub open spec fn spec_tokens(s: Seq<char>) -> Seq<Seq<char>> {
    tokens_from(s, 0)
}

/// Split a line into its whitespace-separated tokens.
pub fn tokenize(line: &str) -> (tokens: Vec<String>)
    ensures
        strings_view(tokens@) == spec_tokens(line@),
{
    let n = line.unicode_len();
    let mut tokens: Vec<String> = Vec::new();
    let mut i: usize = 0;
    while i < n
        invariant
            n == line@.len(),
            i <= n,
            strings_view(tokens@) + tokens_from(line@, i as int) == spec_tokens(line@),
        decreases n - i,
    {
        let c = line.get_char(i);
        if is_whitespace_char(c) {
            i = i + 1;
        } else {
            let ghost end = token_end(line@, i as int);
            proof {
                lemma_token_end_bounds(line@, i as int);
            }
            let mut j = i + 1;
            while j < n && !is_whitespace_char(line.get_char(j))
                invariant
                    n == line@.len(),
                    i < j <= n,
                    token_end(line@, i as int) == token_end(line@, j as int),
                decreases n - j,
            {
                j = j + 1;
            }
            proof {
                assert(token_end(line@, j as int) == j);
                assert(end == j);
            }
            let tok = String::from_str(line.substring_char(i, j));
            proof {
                let prev = strings_view(tokens@);
                assert(strings_view(tokens@.push(tok)) =~= prev.push(tok@));
            }
            tokens.push(tok);
            proof {
                assert(strings_view(tokens@) + tokens_from(line@, j as int) =~= (strings_view(
                    tokens@,
                ).drop_last() + tokens_from(line@, i as int)));
            }
            i = j;
        }
    }
    proof {
        assert(strings_view(tokens@) + tokens_from(line@, i as int) =~= strings_view(tokens@));
    }
    tokens
}

/// The end of the line that starts at `i`: the position of the next newline,
/// or the end of the text.
pub open spec fn line_end(s: Seq<char>, i: int) -> int
    decreases s.len() - i,
{
    if i < 0 || i >= s.len() || s[i] == '\n' {
        i
    } else {
        line_end(s, i + 1)
    }
}

pub proof fn lemma_line_end_bounds(s: Seq<char>, i: int)
    requires
        0 <= i <= s.len(),
    ensures
        i <= line_end(s, i) <= s.len(),
    decreases s.len() - i,
{
    if i < s.len() && s[i] != '\n' {
        lemma_line_end_bounds(s, i + 1);
    }
}

/// The lines of `s` from position `i` on, split as `str::lines` splits them:
/// at each newline, with a carriage return directly before a newline dropped,
/// and with no empty final line after a trailing newline.
pub open spec fn lines_from(s: Seq<char>, i: int) -> Seq<Seq<char>>
    decreases s.len() - i,
    when 0 <= i
    via lines_from_decreases
{
    if i >= s.len() {
        Seq::empty()
    } else {
        let k = line_end(s, i);
        let e = if k > i && k < s.len() && s[k - 1] == '\r' {
            k - 1
        } else {
            k
        };
        if k >= s.len() {
            seq![s.subrange(i, e)]
        } else {
            seq![s.subrange(i, e)] + lines_from(s, k + 1)
        }
    }
}

#[via_fn]
proof fn lines_from_decreases(s: Seq<char>, i: int) {
    if 0 <= i < s.len() {
        lemma_line_end_bounds(s, i);
    }
}

/// The lines of a whole source text.
pub open spec fn spec_lines(s: Seq<char>) -> Seq<Seq<char>> {
    lines_from(s, 0)
}

/// Split a source text into lines, as `str::lines` does.
pub fn split_lines(s: &str) -> (lines: Vec<String>)
    ensures
        strings_view(lines@) == spec_lines(s@),
{
    let n = s.unicode_len();
    let mut lines: Vec<String> = Vec::new();
    let mut i: usize = 0;
    while i < n
        invariant
            n == s@.len(),
            i <= n,
            strings_view(lines@) + lines_from(s@, i as int) == spec_lines(s@),
        decreases n - i,
    {
        let mut k = i;
        while k < n && s.get_char(k) != '\n'
            invariant
                n == s@.len(),
                i <= k <= n,
                line_end(s@, i as int) == line_end(s@, k as int),
            decreases n - k,
        {
            k = k + 1;
        }
        proof {
            assert(line_end(s@, k as int) == k);
        }
        let e = if k > i && k < n && s.get_char(k - 1) == '\r' {
            k - 1
        } else {
            k
        };
        let line = String::from_str(s.substring_char(i, e));
        proof {
            let prev = strings_view(lines@);
            assert(strings_view(lines@.push(line)) =~= prev.push(line@));
        }
        lines.push(line);
        if k < n {
            proof {
                assert(strings_view(lines@) + lines_from(s@, k + 1) =~= (strings_view(
                    lines@,
                ).drop_last() + lines_from(s@, i as int)));
            }
            i = k + 1;
        } else {
            proof {
                assert(lines_from(s@, i as int) =~= seq![line@]);
                assert(strings_view(lines@) + lines_from(s@, n as int) =~= (strings_view(
                    lines@,
                ).drop_last() + lines_from(s@, i as int)));
            }
            i = n;
        }
    }
    proof {
        assert(strings_view(lines@) + lines_from(s@, i as int) =~= strings_view(lines@));
    }
    lines
}

/// A decimal digit.
pub open spec fn spec_is_digit(c: char) -> bool {
    0x30 <= c as u32 && c as u32 <= 0x39
}

/// The numeric value of a decimal digit, zero on any other character.
pub open spec fn digit_val(c: char) -> int {
    if spec_is_digit(c) {
        c as u32 - 0x30
    } else {
        0
    }
}

/// The value of a run of decimal digits.
pub open spec fn dec_value(ds: Seq<char>) -> int
    decreases ds.len(),
{
    if ds.len() == 0 {
        0
    } else {
        dec_value(ds.drop_last()) * 10 + digit_val(ds.last())
    }
}

pub proof fn lemma_dec_value_nonneg(ds: Seq<char>)
    ensures
        dec_value(ds) >= 0,
    decreases ds.len(),
{
    if ds.len() > 0 {
        lemma_dec_value_nonneg(ds.drop_last());
    }
}

/// A digit run is worth at least any of its prefixes.
pub proof fn lemma_dec_value_prefix(ds: Seq<char>, i: int)
    requires
        0 <= i <= ds.len(),
    ensures
        dec_value(ds.take(i)) <= dec_value(ds),
    decreases ds.len() - i,
{
    if i < ds.len() {
        lemma_dec_value_prefix(ds, i + 1);
        let p = ds.take(i + 1);
        assert(p.drop_last() =~= ds.take(i));
        lemma_dec_value_nonneg(ds.take(i));
        assert(dec_value(ds.take(i)) <= dec_value(p));
    } else {
        assert(ds.take(i) =~= ds);
    }
}

/// The digit part of an unsigned literal: the token with an optional leading
/// plus sign removed.
pub open spec fn u8_digits(s: Seq<char>) -> Seq<char> {
    if s.len() > 0 && s[0] == '+' {
        s.drop_first()
    } else {
        s
    }
}

/// What `u8::from_str` accepts: an optional leading plus sign, then one or
/// more decimal digits whose value fits in eight bits.
pub open spec fn spec_parse_u8(s: Seq<char>) -> Option<u8> {
    if u8_digits(s).len() > 0 && (forall|k: int|
        0 <= k < u8_digits(s).len() ==> spec_is_digit(u8_digits(s)[k])) && dec_value(u8_digits(s))
        <= 255 {
        Some(dec_value(u8_digits(s)) as u8)
    } else {
        None
    }
}

/// Parse a token as an unsigned 8-bit decimal literal.
pub fn parse_u8(s: &str) -> (r: Option<u8>)
    ensures
        r == spec_parse_u8(s@),
{
    let n = s.unicode_len();
    let start: usize = if n > 0 && s.get_char(0) == '+' {
        1
    } else {
        0
    };
    let ghost ds = u8_digits(s@);
    proof {
        assert(ds =~= s@.subrange(start as int, n as int));
    }
    if start >= n {
        return None;
    }
    let mut acc: u16 = 0;
    let mut i = start;
    while i < n
        invariant
            n == s@.len(),
            start <= i <= n,
            ds == u8_digits(s@),
            ds == s@.subrange(start as int, n as int),
            ds.len() == n - start,
            forall|k: int| 0 <= k < i - start ==> spec_is_digit(ds[k]),
            acc <= 255,
            acc == dec_value(ds.take(i - start)),
        decreases n - i,
    {
        let c = s.get_char(i);
        let cu = c as u32;
        if !(0x30 <= cu && cu <= 0x39) {
            proof {
                assert(ds[i - start] == s@[i as int]);
                assert(!spec_is_digit(u8_digits(s@)[i - start]));
            }
            return None;
        }
        let d: u16 = (cu as u16) - 0x30;
        let next: u16 = acc * 10 + d;
        proof {
            assert(ds.take(i - start + 1).drop_last() =~= ds.take(i - start));
            assert(ds.take(i - start + 1).last() == ds[i - start]);
            assert(next == dec_value(ds.take(i - start + 1)));
        }
        if next > 255 {
            proof {
                lemma_dec_value_prefix(ds, i - start + 1);
                assert(dec_value(ds) >= next);
                assert(dec_value(u8_digits(s@)) > 255);
            }
            return None;
        }
        acc = next;
        i = i + 1;
    }
    proof {
        assert(ds.take(n - start) =~= ds);
    }
    Some(acc as u8)
}

/// `s` with every leading occurrence of `c` removed.
pub open spec fn trim_lead(s: Seq<char>, c: char) -> Seq<char>
    decreases s.len(),
{
    if s.len() > 0 && s[0] == c {
        trim_lead(s.drop_first(), c)
    } else {
        s
    }
}

/// `s` with every trailing occurrence of `c` removed.
pub open spec fn trim_trail(s: Seq<char>, c: char) -> Seq<char>
    decreases s.len(),
{
    if s.len() > 0 && s.last() == c {
        trim_trail(s.drop_last(), c)
    } else {
        s
    }
}

/// The first position in `s` at or after `from` that does not hold `c`.
pub fn skip_leading(s: &str, from: usize, c: char) -> (r: usize)
    requires
        from <= s@.len(),
    ensures
        from <= r <= s@.len(),
        s@.subrange(r as int, s@.len() as int) == trim_lead(
            s@.subrange(from as int, s@.len() as int),
            c,
        ),
{
    let n = s.unicode_len();
    let mut i = from;
    while i < n && s.get_char(i) == c
        invariant
            n == s@.len(),
            from <= i <= n,
            trim_lead(s@.subrange(from as int, n as int), c) == trim_lead(
                s@.subrange(i as int, n as int),
                c,
            ),
        decreases n - i,
    {
        proof {
            let cur = s@.subrange(i as int, n as int);
            assert(cur.drop_first() =~= s@.subrange(i + 1, n as int));
        }
        i = i + 1;
    }
    i
}

/// The first position in `s` before `upto`, scanning backwards, after which
/// only `c` occurs.
pub fn skip_trailing(s: &str, upto: usize, c: char) -> (r: usize)
    requires
        upto <= s@.len(),
    ensures
        r <= upto,
        s@.subrange(0, r as int) == trim_trail(s@.subrange(0, upto as int), c),
{
    let mut i = upto;
    while i > 0 && s.get_char(i - 1) == c
        invariant
            upto <= s@.len(),
            i <= upto,
            trim_trail(s@.subrange(0, upto as int), c) == trim_trail(s@.subrange(0, i as int), c),
        decreases i,
    {
        proof {
            let cur = s@.subrange(0, i as int);
            assert(cur.drop_last() =~= s@.subrange(0, i - 1));
        }
        i = i - 1;
    }
    i
}

} // verus!
