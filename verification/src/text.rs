//! Character-level text helpers for the project tooling: line splitting and joining,
//! prefixes after leading whitespace, decimal numbers.
use vstd::prelude::*;
use vstd::string::StrSliceExecFns;

verus! {

/// Whether `c` has the Unicode White_Space property, as `char::is_whitespace` answers:
/// U+0009 to U+000D, U+0020, U+0085, U+00A0, U+1680, U+2000 to U+200A, U+2028,
/// U+2029, U+202F, U+205F and U+3000.
pub open spec fn char_is_whitespace(c: char) -> bool {
    let u = c as u32;
    ||| 0x09 <= u <= 0x0d
    ||| u == 0x20
    ||| u == 0x85
    ||| u == 0xa0
    ||| u == 0x1680
    ||| 0x2000 <= u <= 0x200a
    ||| u == 0x2028
    ||| u == 0x2029
    ||| u == 0x202f
    ||| u == 0x205f
    ||| u == 0x3000
}

/// Whether `c` is a Unicode white space character.
pub fn is_whitespace(c: char) -> (r: bool)
    ensures
        r == char_is_whitespace(c),
{
    let u = c as u32;
    (0x09 <= u && u <= 0x0d) || u == 0x20 || u == 0x85 || u == 0xa0 || u == 0x1680 || (0x2000 <= u
        && u <= 0x200a) || u == 0x2028 || u == 0x2029 || u == 0x202f || u == 0x205f || u == 0x3000
}

/// Whether two strings hold the same characters.
pub fn same_str(a: &str, b: &str) -> (r: bool)
    ensures
        r == (a@ == b@),
{
    let n = a.unicode_len();
    if n != b.unicode_len() {
        return false;
    }
    let mut i: usize = 0;
    while i < n
        invariant
            n == a@.len(),
            n == b@.len(),
            i <= n,
            forall|j: int| 0 <= j < i ==> a@[j] == b@[j],
        decreases n - i,
    {
        if a.get_char(i) != b.get_char(i) {
            return false;
        }
        i = i + 1;
    }
    assert(a@ =~= b@);
    true
}

/// The number of whitespace characters that start `s`.
pub open spec fn leading_spaces(s: Seq<char>) -> nat
    decreases s.len(),
{
    if s.len() > 0 && char_is_whitespace(s[0]) {
        1 + leading_spaces(s.drop_first())
    } else {
        0
    }
}

/// `s` without its leading whitespace.
pub open spec fn trim_start(s: Seq<char>) -> Seq<char> {
    s.skip(leading_spaces(s) as int)
}

pub open spec fn starts_with(s: Seq<char>, prefix: Seq<char>) -> bool {
    prefix.len() <= s.len() && s.take(prefix.len() as int) == prefix
}

proof fn lemma_leading_spaces_bound(s: Seq<char>)
    ensures
        leading_spaces(s) <= s.len(),
    decreases s.len(),
{
    if s.len() > 0 && char_is_whitespace(s[0]) {
        lemma_leading_spaces_bound(s.drop_first());
    }
}

/// Whether `line`, once its leading whitespace is removed, starts with `prefix`.
pub fn starts_with_after_spaces(line: &str, prefix: &str) -> (r: bool)
    ensures
        r == starts_with(trim_start(line@), prefix@),
{
    let n = line.unicode_len();
    let mut i: usize = 0;
    assert(line@.skip(0) =~= line@);
    while i < n && is_whitespace(line.get_char(i))
        invariant
            n == line@.len(),
            i <= n,
            leading_spaces(line@) == i + leading_spaces(line@.skip(i as int)),
        decreases n - i,
    {
        assert(line@.skip(i as int).drop_first() =~= line@.skip(i + 1));
        i = i + 1;
    }
    assert(leading_spaces(line@.skip(i as int)) == 0);
    let m = prefix.unicode_len();
    if n - i < m {
        return false;
    }
    let mut k: usize = 0;
    while k < m
        invariant
            n == line@.len(),
            m == prefix@.len(),
            i + m <= n,
            i == leading_spaces(line@),
            k <= m,
            forall|j: int| 0 <= j < k ==> line@[i + j] == prefix@[j],
        decreases m - k,
    {
        if line.get_char(i + k) != prefix.get_char(k) {
            assert(trim_start(line@).take(m as int)[k as int] != prefix@[k as int]);
            return false;
        }
        k = k + 1;
    }
    assert(trim_start(line@).take(m as int) =~= prefix@);
    true
}

/// The pieces of `s` between the occurrences of `sep`.
pub open spec fn split_on(s: Seq<char>, sep: char) -> Seq<Seq<char>>
    decreases s.len(),
{
    if s.len() == 0 {
        seq![Seq::empty()]
    } else {
        let rest = split_on(s.drop_last(), sep);
        if s.last() == sep {
            rest.push(Seq::empty())
        } else {
            rest.update(rest.len() - 1, rest.last().push(s.last()))
        }
    }
}

/// The lines of `s`: the pieces between its newline characters.
pub open spec fn split_lines(s: Seq<char>) -> Seq<Seq<char>> {
    split_on(s, '\n')
}

/// The pieces, separated by `sep`.
pub open spec fn join_on(pieces: Seq<Seq<char>>, sep: char) -> Seq<char>
    decreases pieces.len(),
{
    if pieces.len() == 0 {
        Seq::empty()
    } else if pieces.len() == 1 {
        pieces[0]
    } else {
        join_on(pieces.drop_last(), sep) + seq![sep] + pieces.last()
    }
}

/// The lines, separated by newline characters.
pub open spec fn join_lines(lines: Seq<Seq<char>>) -> Seq<char> {
    join_on(lines, '\n')
}

proof fn lemma_split_on_nonempty(s: Seq<char>, sep: char)
    ensures
        split_on(s, sep).len() >= 1,
    decreases s.len(),
{
    if s.len() > 0 {
        lemma_split_on_nonempty(s.drop_last(), sep);
    }
}

/// Joining the pieces of a text split at a separator gives the text back.
pub proof fn law_join_split(s: Seq<char>, sep: char)
    ensures
        join_on(split_on(s, sep), sep) == s,
    decreases s.len(),
{
    if s.len() > 0 {
        law_join_split(s.drop_last(), sep);
        lemma_split_on_nonempty(s.drop_last(), sep);
        let rest = split_on(s.drop_last(), sep);
        if s.last() == sep {
            assert(rest.push(Seq::empty()).drop_last() =~= rest);
            assert(s =~= s.drop_last() + seq![sep] + Seq::empty());
        } else {
            let up = rest.update(rest.len() - 1, rest.last().push(s.last()));
            if rest.len() == 1 {
                assert(s =~= rest[0].push(s.last()));
            } else {
                assert(up.drop_last() =~= rest.drop_last());
                assert(join_on(rest, sep) == join_on(rest.drop_last(), sep) + seq![sep] + rest.last());
                assert(join_on(up, sep) == join_on(up.drop_last(), sep) + seq![sep] + up.last());
                assert(s =~= s.drop_last().push(s.last()));
                assert(s =~= join_on(rest.drop_last(), sep) + seq![sep] + rest.last().push(
                    s.last(),
                ));
            }
        }
    }
}

/// Splits `s` at its newline characters.
pub fn split_text_lines(s: &str) -> (r: Vec<String>)
    ensures
        r.deep_view() == split_lines(s@),
{
    split_text_on(s, '\n')
}

/// Splits `s` at the occurrences of `sep`.
pub fn split_text_on(s: &str, sep: char) -> (r: Vec<String>)
    ensures
        r.deep_view() == split_on(s@, sep),
{
    let n = s.unicode_len();
    let mut out: Vec<String> = Vec::new();
    let mut start: usize = 0;
    let mut i: usize = 0;
    assert(split_on(s@.take(0), sep) =~= seq![Seq::<char>::empty()]);
    assert(out.deep_view() =~= Seq::<Seq<char>>::empty());
    assert(s@.subrange(0, 0) =~= Seq::<char>::empty());
    while i < n
        invariant
            n == s@.len(),
            start <= i <= n,
            out.deep_view() + seq![s@.subrange(start as int, i as int)] == split_on(
                s@.take(i as int),
                sep,
            ),
        decreases n - i,
    {
        let c = s.get_char(i);
        let ghost prefix = s@.take(i + 1);
        assert(prefix.drop_last() =~= s@.take(i as int));
        assert(prefix.last() == c);
        if c == sep {
            let piece = s.substring_char(start, i).to_owned();
            let ghost prev = out.deep_view();
            out.push(piece);
            assert(out.deep_view() =~= prev.push(s@.subrange(start as int, i as int)));
            assert(s@.subrange((i + 1) as int, (i + 1) as int) =~= Seq::<char>::empty());
            assert(split_on(prefix, sep) == split_on(s@.take(i as int), sep).push(Seq::empty()));
            assert(out.deep_view() + seq![s@.subrange((i + 1) as int, (i + 1) as int)]
                =~= split_on(prefix, sep));
            start = i + 1;
        } else {
            let ghost rest = split_on(s@.take(i as int), sep);
            assert(s@.subrange(start as int, i + 1) =~= s@.subrange(start as int, i as int).push(c));
            assert(out.deep_view() + seq![s@.subrange(start as int, i + 1)] =~= rest.update(
                rest.len() - 1,
                rest.last().push(c),
            ));
        }
        i = i + 1;
    }
    let last = s.substring_char(start, n).to_owned();
    let ghost prev = out.deep_view();
    out.push(last);
    assert(out.deep_view() =~= prev.push(s@.subrange(start as int, n as int)));
    assert(s@.take(n as int) =~= s@);
    out
}

/// Joins lines with newline characters.
pub fn join_text_lines(lines: &Vec<String>) -> (r: String)
    ensures
        r@ == join_lines(lines.deep_view()),
{
    let mut out = String::new();
    let mut i: usize = 0;
    while i < lines.len()
        invariant
            i <= lines@.len(),
            out@ == join_lines(lines.deep_view().take(i as int)),
        decreases lines@.len() - i,
    {
        let ghost t = lines.deep_view().take(i + 1);
        assert(t.drop_last() =~= lines.deep_view().take(i as int));
        assert(t.last() == lines@[i as int]@);
        if i > 0 {
            out.append("\n");
            proof {
                reveal_strlit("\n");
            }
        }
        out.append(lines[i].as_str());
        proof {
            if i == 0 {
                assert(out@ =~= t[0]);
            } else {
                assert(out@ =~= join_on(t.drop_last(), '\n') + seq!['\n'] + t.last());
            }
        }
        i = i + 1;
    }
    assert(lines.deep_view().take(lines@.len() as int) =~= lines.deep_view());
    out
}

/// The value of a string of ASCII decimal digits.
pub open spec fn digits_value(s: Seq<char>) -> int
    decreases s.len(),
{
    if s.len() == 0 {
        0
    } else {
        10 * digits_value(s.drop_last()) + (s.last() as int - '0' as int)
    }
}

pub open spec fn all_ascii_digits(s: Seq<char>) -> bool {
    forall|i: int| 0 <= i < s.len() ==> '0' <= #[trigger] s[i] <= '9'
}

/// What `str::parse::<i32>` gives for a string without sign: the value of a non-empty
/// run of ASCII digits that fits an `i32`.
pub open spec fn parsed_i32(s: Seq<char>) -> Option<i32> {
    if s.len() > 0 && all_ascii_digits(s) && digits_value(s) <= i32::MAX {
        Some(digits_value(s) as i32)
    } else {
        None
    }
}

proof fn lemma_digits_value_mono(s: Seq<char>)
    requires
        all_ascii_digits(s),
        s.len() > 0,
    ensures
        digits_value(s) >= digits_value(s.drop_last()),
        digits_value(s.drop_last()) >= 0,
    decreases s.len(),
{
    if s.len() > 1 {
        assert(all_ascii_digits(s.drop_last()));
        lemma_digits_value_mono(s.drop_last());
    }
}

/// Parses a string made of ASCII digits, as `str::parse::<i32>` does for unsigned text.
pub fn parse_unsigned_i32(s: &str) -> (r: Option<i32>)
    requires
        s@.len() == 0 || s@[0] != '+' && s@[0] != '-',
    ensures
        r == parsed_i32(s@),
{
    let n = s.unicode_len();
    if n == 0 {
        return None;
    }
    let mut value: i64 = 0;
    let mut i: usize = 0;
    assert(s@.take(0) =~= Seq::<char>::empty());
    while i < n
        invariant
            n == s@.len(),
            i <= n,
            all_ascii_digits(s@.take(i as int)),
            value == digits_value(s@.take(i as int)),
            0 <= value <= i32::MAX,
        decreases n - i,
    {
        let c = s.get_char(i);
        assert(s@.take(i + 1).drop_last() =~= s@.take(i as int));
        if c < '0' || c > '9' {
            assert(!all_ascii_digits(s@)) by {
                assert(s@[i as int] == c);
            }
            return None;
        }
        let d = (c as u32 - '0' as u32) as i64;
        value = 10 * value + d;
        assert(all_ascii_digits(s@.take(i + 1)));
        if value > i32::MAX as i64 {
            assert(parsed_i32(s@) is None) by {
                lemma_prefix_value_bound(s@, (i + 1) as nat);
            }
            return None;
        }
        i = i + 1;
    }
    assert(s@.take(n as int) =~= s@);
    Some(value as i32)
}

proof fn lemma_prefix_value_bound(s: Seq<char>, k: nat)
    requires
        0 < k <= s.len(),
        all_ascii_digits(s) || all_ascii_digits(s.take(k as int)),
    ensures
        all_ascii_digits(s) ==> digits_value(s) >= digits_value(s.take(k as int)),
    decreases s.len() - k,
{
    if k < s.len() && all_ascii_digits(s) {
        lemma_prefix_value_bound(s, k + 1);
        let t = s.take(k + 1 as int);
        assert(t.drop_last() =~= s.take(k as int));
        assert(all_ascii_digits(t));
        lemma_digits_value_mono(t);
    } else if k == s.len() {
        assert(s.take(k as int) =~= s);
    }
}

/// The decimal digits of `n`, most significant first, without leading zeros.
pub open spec fn decimal(n: nat) -> Seq<char>
    decreases n,
{
    if n < 10 {
        seq![(('0' as nat) + n) as char]
    } else {
        decimal(n / 10).push((('0' as nat) + n % 10) as char)
    }
}

/// The decimal text of `n`.
pub fn decimal_string(n: u64) -> (r: String)
    ensures
        r@ == decimal(n as nat),
    decreases n,
{
    let digits = "0123456789";
    proof {
        reveal_strlit("0123456789");
    }
    let d = (n % 10) as usize;
    let last = digits.substring_char(d, d + 1);
    assert(last@ =~= seq![(('0' as nat) + n % 10) as char]);
    if n < 10 {
        last.to_owned()
    } else {
        let head = decimal_string(n / 10);
        head.concat(last)
    }
}

} // verus!
