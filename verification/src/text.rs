//! Small text operations on character sequences, stated over `Seq<char>`.
use vstd::prelude::*;

verus! {

/// The characters with the Unicode `White_Space` property (`char::is_whitespace`).
pub open spec fn is_ws(c: char) -> bool {
    ||| ('\u{9}' <= c && c <= '\u{d}')
    ||| c == ' '
    ||| c == '\u{85}'
    ||| c == '\u{a0}'
    ||| c == '\u{1680}'
    ||| ('\u{2000}' <= c && c <= '\u{200a}')
    ||| c == '\u{2028}'
    ||| c == '\u{2029}'
    ||| c == '\u{202f}'
    ||| c == '\u{205f}'
    ||| c == '\u{3000}'
}

pub fn is_whitespace(c: char) -> (b: bool)
    ensures
        b == is_ws(c),
{
    ('\u{9}' <= c && c <= '\u{d}') || c == ' ' || c == '\u{85}' || c == '\u{a0}' || c == '\u{1680}'
        || ('\u{2000}' <= c && c <= '\u{200a}') || c == '\u{2028}' || c == '\u{2029}' || c
        == '\u{202f}' || c == '\u{205f}' || c == '\u{3000}'
}

/// `s` without its leading whitespace.
pub open spec fn trim_start_spec(s: Seq<char>) -> Seq<char>
    decreases s.len(),
{
    if s.len() > 0 && is_ws(s[0]) {
        trim_start_spec(s.drop_first())
    } else {
        s
    }
}

/// `s` without its trailing whitespace.
pub open spec fn trim_end_spec(s: Seq<char>) -> Seq<char>
    decreases s.len(),
{
    if s.len() > 0 && is_ws(s.last()) {
        trim_end_spec(s.drop_last())
    } else {
        s
    }
}

/// `s` without leading and trailing whitespace (`str::trim`).
pub open spec fn trim_spec(s: Seq<char>) -> Seq<char> {
    trim_end_spec(trim_start_spec(s))
}

/// Index of the first occurrence of `c` in `s`, if any.
pub open spec fn find_spec(s: Seq<char>, c: char) -> Option<int>
    decreases s.len(),
{
    if s.len() == 0 {
        None
    } else if s[0] == c {
        Some(0)
    } else {
        match find_spec(s.drop_first(), c) {
            Some(i) => Some(i + 1),
            None => None,
        }
    }
}

/// The pieces of `s` between occurrences of `sep` (`str::split` with a char).
pub open spec fn split_spec(s: Seq<char>, sep: char) -> Seq<Seq<char>>
    decreases s.len(),
{
    match find_spec(s, sep) {
        None => seq![s],
        Some(i) => if 0 <= i < s.len() {
            seq![s.take(i)] + split_spec(s.skip(i + 1), sep)
        } else {
            seq![s]
        },
    }
}

/// `s` with every leading copy of `p` removed (`str::trim_start_matches`).
pub open spec fn strip_all_prefix_spec(s: Seq<char>, p: Seq<char>) -> Seq<char>
    decreases s.len(),
{
    if p.len() > 0 && p.is_prefix_of(s) {
        strip_all_prefix_spec(s.skip(p.len() as int), p)
    } else {
        s
    }
}

proof fn lemma_find_props(s: Seq<char>, c: char)
    ensures
        match find_spec(s, c) {
            Some(i) => 0 <= i < s.len() && s[i] == c && forall|k: int| 0 <= k < i ==> s[k] != c,
            None => forall|k: int| 0 <= k < s.len() ==> s[k] != c,
        },
    decreases s.len(),
{
    if s.len() > 0 && s[0] != c {
        lemma_find_props(s.drop_first(), c);
        match find_spec(s.drop_first(), c) {
            Some(i) => {
                assert forall|k: int| 0 <= k < i + 1 implies s[k] != c by {
                    if k > 0 {
                        assert(s[k] == s.drop_first()[k - 1]);
                    }
                }
            },
            None => {
                assert forall|k: int| 0 <= k < s.len() implies s[k] != c by {
                    if k > 0 {
                        assert(s[k] == s.drop_first()[k - 1]);
                    }
                }
            },
        }
    }
}

proof fn lemma_find_from(s: Seq<char>, c: char, i: int)
    requires
        0 <= i <= s.len(),
        forall|k: int| 0 <= k < i ==> s[k] != c,
    ensures
        find_spec(s, c) == (match find_spec(s.skip(i), c) {
            Some(j) => Some(j + i),
            None => None::<int>,
        }),
    decreases i,
{
    if i == 0 {
        assert(s.skip(0) =~= s);
        match find_spec(s, c) {
            Some(j) => {},
            None => {},
        }
    } else {
        lemma_find_from(s.drop_first(), c, i - 1);
        assert(s.drop_first().skip(i - 1) =~= s.skip(i));
    }
}

/// Whether `a` and `b` hold the same characters.
pub fn same_text(a: &str, b: &str) -> (r: bool)
    ensures
        r == (a@ == b@),
{
    let n = a.unicode_len();
    if n != b.unicode_len() {
        return false;
    }
    let mut i: usize = 0;
    while i < n
        invariant
            n == a@.len(),
            n == b@.len(),
            0 <= i <= n,
            forall|k: int| 0 <= k < i ==> a@[k] == b@[k],
        decreases n - i,
    {
        if a.get_char(i) != b.get_char(i) {
            return false;
        }
        i += 1;
    }
    assert(a@ =~= b@);
    true
}

/// Whether `p` is a prefix of `s` (`str::starts_with`).
pub fn starts_with(s: &str, p: &str) -> (r: bool)
    ensures
        r == p@.is_prefix_of(s@),
{
    let n = p.unicode_len();
    if n > s.unicode_len() {
        return false;
    }
    let mut i: usize = 0;
    while i < n
        invariant
            n == p@.len(),
            n <= s@.len(),
            0 <= i <= n,
            forall|k: int| 0 <= k < i ==> p@[k] == s@[k],
        decreases n - i,
    {
        if p.get_char(i) != s.get_char(i) {
            return false;
        }
        i += 1;
    }
    true
}

/// Index of the first occurrence of `c` at or after `from`, if any.
pub fn find_char_from(s: &str, c: char, from: usize) -> (r: Option<usize>)
    requires
        from <= s@.len(),
    ensures
        match r {
            Some(i) => from <= i < s@.len() && s@[i as int] == c && forall|k: int|
                from <= k < i ==> s@[k] != c,
            None => forall|k: int| from <= k < s@.len() ==> s@[k] != c,
        },
{
    let n = s.unicode_len();
    let mut i = from;
    while i < n
        invariant
            n == s@.len(),
            from <= i <= n,
            forall|k: int| from <= k < i ==> s@[k] != c,
        decreases n - i,
    {
        if s.get_char(i) == c {
            return Some(i);
        }
        i += 1;
    }
    None
}

/// `str::trim`.
pub fn trim(s: &str) -> (r: &str)
    ensures
        r@ == trim_spec(s@),
{
    let n = s.unicode_len();
    let mut start: usize = 0;
    assert(s@.skip(0) =~= s@);
    while start < n && is_whitespace(s.get_char(start))
        invariant
            n == s@.len(),
            0 <= start <= n,
            trim_start_spec(s@) == trim_start_spec(s@.skip(start as int)),
        decreases n - start,
    {
        proof {
            assert(s@.skip(start as int).drop_first() =~= s@.skip(start + 1));
        }
        start += 1;
    }
    proof {
        if start < n {
            assert(s@.skip(start as int)[0] == s@[start as int]);
        } else {
            assert(s@.skip(start as int) =~= Seq::<char>::empty());
        }
    }
    let mut end: usize = n;
    while end > start && is_whitespace(s.get_char(end - 1))
        invariant
            n == s@.len(),
            0 <= start <= end <= n,
            trim_start_spec(s@) =~= s@.subrange(start as int, n as int),
            trim_spec(s@) == trim_end_spec(s@.subrange(start as int, end as int)),
        decreases end - start,
    {
        proof {
            assert(s@.subrange(start as int, end as int).drop_last() =~= s@.subrange(
                start as int,
                end - 1,
            ));
        }
        end -= 1;
    }
    let r = s.substring_char(start, end);
    r
}

/// `str::split` with a character separator, as owned strings.
pub fn split(s: &str, sep: char) -> (r: Vec<String>)
    ensures
        r@.len() == split_spec(s@, sep).len(),
        forall|i: int| 0 <= i < r@.len() ==> #[trigger] r@[i]@ == split_spec(s@, sep)[i],
{
    let n = s.unicode_len();
    let mut out: Vec<String> = Vec::new();
    let mut start: usize = 0;
    assert(s@.skip(0) =~= s@);
    loop
        invariant_except_break
            0 <= start <= n,
            split_spec(s@, sep) =~= out@.map_values(|x: String| x@) + split_spec(
                s@.skip(start as int),
                sep,
            ),
        invariant
            n == s@.len(),
        ensures
            split_spec(s@, sep) =~= out@.map_values(|x: String| x@),
        decreases n - start,
    {
        let found = find_char_from(s, sep, start);
        let ghost rest = s@.skip(start as int);
        proof {
            lemma_find_from(rest, sep, 0);
            lemma_find_props(rest, sep);
        }
        match found {
            None => {
                proof {
                    assert(find_spec(rest, sep) is None) by {
                        if find_spec(rest, sep) is Some {
                            let j = find_spec(rest, sep)->0;
                            assert(rest[j] == s@[start + j]);
                        }
                    }
                }
                let piece = s.substring_char(start, n);
                let ghost before = out@;
                out.push(String::from_str(piece));
                proof {
                    assert(piece@ =~= rest);
                    assert(out@.map_values(|x: String| x@) =~= before.map_values(|x: String| x@).push(
                        piece@,
                    ));
                    assert(split_spec(s@, sep) =~= out@.map_values(|x: String| x@));
                }
                break;
            },
            Some(i) => {
                proof {
                    assert(find_spec(rest, sep) == Some((i - start) as int)) by {
                        match find_spec(rest, sep) {
                            Some(j) => {
                                assert(rest[j] == s@[start + j]);
                                if j < i - start {
                                } else if j > i - start {
                                    assert(rest[i - start] == s@[i as int]);
                                }
                            },
                            None => {
                                assert(rest[i - start] == s@[i as int]);
                            },
                        }
                    }
                }
                let piece = s.substring_char(start, i);
                let ghost before = out@;
                out.push(String::from_str(piece));
                proof {
                    assert(piece@ =~= rest.take(i - start));
                    assert(rest.skip(i - start + 1) =~= s@.skip(i + 1));
                    assert(out@.map_values(|x: String| x@) =~= before.map_values(|x: String| x@).push(
                        piece@,
                    ));
                }
                start = i + 1;
            },
        }
    }
    proof {
        assert(out@.map_values(|x: String| x@).len() == out@.len());
        assert forall|i: int| 0 <= i < out@.len() implies #[trigger] out@[i]@ == split_spec(s@, sep)[i] by {
            assert(out@.map_values(|x: String| x@)[i] == out@[i]@);
        }
    }
    out
}

} // verus!

verus! {

/// The text before and after the first occurrence of `c` (`str::split_once`).
pub open spec fn split_once_spec(s: Seq<char>, c: char) -> Option<(Seq<char>, Seq<char>)> {
    match find_spec(s, c) {
        Some(i) => Some((s.take(i), s.skip(i + 1))),
        None => None,
    }
}

/// `str::split_once` with a character.
pub fn split_once(s: &str, c: char) -> (r: Option<(&str, &str)>)
    ensures
        match r {
            Some((a, b)) => split_once_spec(s@, c) == Some((a@, b@)),
            None => split_once_spec(s@, c) is None,
        },
{
    proof {
        lemma_find_props(s@, c);
    }
    let n = s.unicode_len();
    match find_char_from(s, c, 0) {
        Some(i) => {
            proof {
                assert(find_spec(s@, c) == Some(i as int)) by {
                    match find_spec(s@, c) {
                        Some(j) => {},
                        None => {},
                    }
                }
            }
            let a = s.substring_char(0, i);
            let b = s.substring_char(i + 1, n);
            proof {
                assert(a@ =~= s@.take(i as int));
                assert(b@ =~= s@.skip(i + 1));
            }
            Some((a, b))
        },
        None => {
            proof {
                assert(find_spec(s@, c) is None) by {
                    match find_spec(s@, c) {
                        Some(j) => {},
                        None => {},
                    }
                }
            }
            None
        },
    }
}

/// Whether `s` ends with `c`.
pub fn ends_with_char(s: &str, c: char) -> (r: bool)
    ensures
        r == (s@.len() > 0 && s@.last() == c),
{
    let n = s.unicode_len();
    n > 0 && s.get_char(n - 1) == c
}

/// `str::trim_start_matches` with a text pattern: drops every leading copy of `p`.
pub fn strip_all_prefix<'a>(s: &'a str, p: &str) -> (r: &'a str)
    ensures
        r@ == strip_all_prefix_spec(s@, p@),
{
    let n = s.unicode_len();
    let k = p.unicode_len();
    if k == 0 {
        return s;
    }
    let mut start: usize = 0;
    assert(s@.skip(0) =~= s@);
    loop
        invariant
            n == s@.len(),
            k == p@.len(),
            k > 0,
            0 <= start <= n,
            strip_all_prefix_spec(s@, p@) == strip_all_prefix_spec(s@.skip(start as int), p@),
        decreases n - start,
    {
        let rest = s.substring_char(start, n);
        proof {
            assert(rest@ =~= s@.skip(start as int));
        }
        if starts_with(rest, p) {
            proof {
                assert(s@.skip(start as int).skip(k as int) =~= s@.skip(start + k));
            }
            start = start + k;
        } else {
            return rest;
        }
    }
}

/// Value of a string of decimal digits.
pub open spec fn digits_value(s: Seq<char>) -> int
    decreases s.len(),
{
    if s.len() == 0 {
        0
    } else {
        digits_value(s.drop_last()) * 10 + (s.last() as int - '0' as int)
    }
}

pub open spec fn all_digits(s: Seq<char>) -> bool {
    forall|i: int| 0 <= i < s.len() ==> '0' <= #[trigger] s[i] && s[i] <= '9'
}

/// What `str::parse::<usize>` gives: an optional `+`, then at least one
/// decimal digit, with a value that fits.
pub open spec fn parse_usize_spec(s: Seq<char>) -> Option<usize> {
    let d = if s.len() > 0 && s[0] == '+' {
        s.drop_first()
    } else {
        s
    };
    if d.len() > 0 && all_digits(d) && digits_value(d) <= usize::MAX {
        Some(digits_value(d) as usize)
    } else {
        None
    }
}

proof fn lemma_digits_prefix_monotone(s: Seq<char>, j: int)
    requires
        all_digits(s),
        0 <= j <= s.len(),
    ensures
        0 <= digits_value(s.take(j)) <= digits_value(s),
    decreases s.len(),
{
    if s.len() > 0 {
        assert(all_digits(s.drop_last()));
        if j == s.len() {
            assert(s.take(j) =~= s);
            lemma_digits_prefix_monotone(s.drop_last(), j - 1);
            assert(s.drop_last().take(j - 1) =~= s.drop_last());
        } else {
            lemma_digits_prefix_monotone(s.drop_last(), j);
            assert(s.drop_last().take(j) =~= s.take(j));
            lemma_digits_prefix_monotone(s.drop_last(), s.len() - 1);
            assert(s.drop_last().take(s.len() - 1) =~= s.drop_last());
        }
    } else {
        assert(s.take(j) =~= s);
    }
}

/// `str::parse::<usize>`.
pub fn parse_usize(s: &str) -> (r: Option<usize>)
    ensures
        r == parse_usize_spec(s@),
{
    let n = s.unicode_len();
    let mut i: usize = 0;
    if n > 0 && s.get_char(0) == '+' {
        i = 1;
    }
    let ghost d = if s@.len() > 0 && s@[0] == '+' {
        s@.drop_first()
    } else {
        s@
    };
    let ghost off = i as int;
    assert(d =~= s@.skip(off));
    if i >= n {
        return None;
    }
    let mut acc: usize = 0;
    assert(d.take(0) =~= Seq::<char>::empty());
    while i < n
        invariant
            n == s@.len(),
            0 <= off <= i <= n,
            d =~= s@.skip(off),
            d == (if s@.len() > 0 && s@[0] == '+' {
                s@.drop_first()
            } else {
                s@
            }),
            forall|k: int| 0 <= k < i - off ==> '0' <= #[trigger] d[k] && d[k] <= '9',
            acc == digits_value(d.take(i - off)),
        decreases n - i,
    {
        let c = s.get_char(i);
        assert(d[i - off] == c) by {
            assert(s@.skip(off)[i - off] == s@[i as int]);
        }
        if c < '0' || c > '9' {
            assert(!all_digits(d));
            return None;
        }
        let digit = (c as u32 - '0' as u32) as usize;
        proof {
            assert(d.take(i - off + 1).drop_last() =~= d.take(i - off));
            assert(d.take(i - off + 1).last() == c);
        }
        if acc > (usize::MAX - digit) / 10 {
            proof {
                assert(acc * 10 + digit > usize::MAX) by (nonlinear_arith)
                    requires
                        acc > (usize::MAX - digit) / 10,
                        digit <= 9,
                ;
                assert(digit == c as int - '0' as int);
                assert(digits_value(d.take(i - off + 1)) == acc * 10 + digit);
                if all_digits(d) {
                    lemma_digits_prefix_monotone(d, i - off + 1);
                }
            }
            return None;
        }
        assert(acc * 10 + digit <= usize::MAX) by (nonlinear_arith)
            requires
                acc <= (usize::MAX - digit) / 10,
                digit <= 9,
        ;
        acc = acc * 10 + digit;
        i += 1;
    }
    proof {
        assert(d.take(n - off) =~= d);
    }
    Some(acc)
}

} // verus!
