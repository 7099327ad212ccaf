//! Text primitives that the table parser is built from: substring search on
//! UTF-8 bytes, line splitting, byte-range slicing and whitespace trimming.
use vstd::prelude::*;
use vstd::string::StringSliceAdditionalSpecFns;
use vstd::utf8::*;

verus! {

broadcast use vstd::utf8::group_utf8_lib;

/// `pat` occurs in `hay` starting at byte `i`.
pub open spec fn matches_at(hay: Seq<u8>, pat: Seq<u8>, i: int) -> bool {
    &&& 0 <= i
    &&& i + pat.len() <= hay.len()
    &&& hay.subrange(i, i + pat.len()) == pat
}

/// The first position at or after `i` where `pat` occurs in `hay`.
pub open spec fn first_match_from(hay: Seq<u8>, pat: Seq<u8>, i: int) -> Option<int>
    decreases hay.len() + 1 - i,
{
    if i < 0 || i + pat.len() > hay.len() {
        None
    } else if matches_at(hay, pat, i) {
        Some(i)
    } else {
        first_match_from(hay, pat, i + 1)
    }
}

/// The byte index of the first occurrence of `pat` in `hay` (what `str::find` returns).
pub open spec fn find_in(hay: Seq<u8>, pat: Seq<u8>) -> Option<int> {
    first_match_from(hay, pat, 0)
}

/// `pat` occurs somewhere in `hay` (what `str::contains` answers).
pub open spec fn contains_in(hay: Seq<u8>, pat: Seq<u8>) -> bool {
    find_in(hay, pat) is Some
}

/// `first_match_from` finds the least matching position at or after `i`.
pub proof fn lemma_first_match_from(hay: Seq<u8>, pat: Seq<u8>, i: int)
    requires
        0 <= i,
    ensures
        first_match_from(hay, pat, i) matches Some(k) ==> {
            &&& i <= k
            &&& matches_at(hay, pat, k)
            &&& forall|j: int| i <= j < k ==> !matches_at(hay, pat, j)
        },
        first_match_from(hay, pat, i) is None ==> forall|j: int|
            i <= j ==> !#[trigger] matches_at(hay, pat, j),
    decreases hay.len() + 1 - i,
{
    if i + pat.len() > hay.len() {
    } else if matches_at(hay, pat, i) {
    } else {
        lemma_first_match_from(hay, pat, i + 1);
    }
}

/// The search result is the least position where the pattern occurs, and
/// there is none exactly when the pattern occurs nowhere.
pub proof fn lemma_find_in(hay: Seq<u8>, pat: Seq<u8>)
    ensures
        find_in(hay, pat) matches Some(k) ==> {
            &&& matches_at(hay, pat, k)
            &&& forall|j: int| 0 <= j < k ==> !matches_at(hay, pat, j)
        },
        find_in(hay, pat) is None <==> forall|j: int| !#[trigger] matches_at(hay, pat, j),
{
    lemma_first_match_from(hay, pat, 0);
    if find_in(hay, pat) is Some {
        let k = find_in(hay, pat)->0;
        assert(matches_at(hay, pat, k));
    }
}

fn matches_here(hay: &[u8], pat: &[u8], i: usize) -> (r: bool)
    requires
        i + pat@.len() <= hay@.len(),
    ensures
        r == matches_at(hay@, pat@, i as int),
{
    let n = pat.len();
    let mut j: usize = 0;
    while j < n
        invariant
            n == pat@.len(),
            i + n <= hay.len(),
            j <= n,
            forall|k: int| 0 <= k < j ==> hay@[i + k] == pat@[k],
        decreases n - j,
    {
        if hay[i + j] != pat[j] {
            assert(hay@.subrange(i as int, i + n)[j as int] != pat@[j as int]);
            return false;
        }
        j += 1;
    }
    assert(hay@.subrange(i as int, i + n) =~= pat@);
    true
}

/// Byte index of the first occurrence of `pat` in `hay`.
pub fn find_bytes(hay: &[u8], pat: &[u8]) -> (r: Option<usize>)
    ensures
        match r {
            Some(k) => find_in(hay@, pat@) == Some(k as int),
            None => find_in(hay@, pat@) is None,
        },
{
    if pat.len() > hay.len() {
        return None;
    }
    let last = hay.len() - pat.len();
    let mut i: usize = 0;
    loop
        invariant
            last == hay@.len() - pat@.len(),
            i <= last,
            find_in(hay@, pat@) == first_match_from(hay@, pat@, i as int),
        decreases last - i,
    {
        if matches_here(hay, pat, i) {
            return Some(i);
        }
        if i == last {
            return None;
        }
        i += 1;
    }
}


/// A line with one trailing carriage return removed, as `str::lines` does for
/// lines ended by `"\r\n"`.
pub open spec fn strip_cr(line: Seq<char>) -> Seq<char> {
    if line.len() > 0 && line.last() == '\r' {
        line.drop_last()
    } else {
        line
    }
}

/// Splits `s` at each `'\n'`: the lines that a `'\n'` has ended (each
/// without its `"\n"` or `"\r\n"`), and the text after the last `'\n'`.
pub open spec fn split_newlines(s: Seq<char>) -> (Seq<Seq<char>>, Seq<char>)
    decreases s.len(),
{
    if s.len() == 0 {
        (Seq::empty(), Seq::empty())
    } else {
        let (done, rest) = split_newlines(s.drop_last());
        if s.last() == '\n' {
            (done.push(strip_cr(rest)), Seq::empty())
        } else {
            (done, rest.push(s.last()))
        }
    }
}

/// The lines of `s` as `str::lines` yields them: a final line without a line
/// ending counts when it is not empty, and keeps any carriage return.
pub open spec fn lines_of(s: Seq<char>) -> Seq<Seq<char>> {
    let (done, rest) = split_newlines(s);
    if rest.len() == 0 {
        done
    } else {
        done.push(rest)
    }
}

/// The views of a sequence of string slices.
pub open spec fn views<'a>(v: Seq<&'a str>) -> Seq<Seq<char>> {
    v.map_values(|l: &'a str| l@)
}

/// The lines of `s` (see `lines_of`).
pub fn split_lines<'a>(s: &'a str) -> (lines: Vec<&'a str>)
    ensures
        views(lines@) == lines_of(s@),
{
    let n = s.unicode_len();
    let mut lines: Vec<&'a str> = Vec::new();
    let mut start: usize = 0;
    let mut i: usize = 0;
    while i < n
        invariant
            n == s@.len(),
            start <= i <= n,
            views(lines@) == split_newlines(s@.take(i as int)).0,
            split_newlines(s@.take(i as int)).1 == s@.subrange(start as int, i as int),
        decreases n - i,
    {
        let c = s.get_char(i);
        proof {
            assert(s@.take(i + 1).drop_last() =~= s@.take(i as int));
            assert(s@.take(i + 1).last() == c);
        }
        if c == '\n' {
            let ghost rest = s@.subrange(start as int, i as int);
            let end = if i > start && s.get_char(i - 1) == '\r' {
                i - 1
            } else {
                i
            };
            let line = s.substring_char(start, end);
            assert(line@ =~= strip_cr(rest));
            lines.push(line);
            assert(views(lines@) =~= split_newlines(s@.take(i + 1)).0);
            start = i + 1;
            assert(split_newlines(s@.take(i + 1)).1 =~= s@.subrange(start as int, i + 1));
        } else {
            assert(split_newlines(s@.take(i + 1)).1 =~= s@.subrange(start as int, i + 1));
        }
        i += 1;
    }
    assert(s@.take(n as int) =~= s@);
    if start < n {
        let last = s.substring_char(start, n);
        lines.push(last);
        assert(views(lines@) =~= lines_of(s@));
    }
    lines
}

/// The characters between byte offsets `start` and `end` of `s`, or the empty
/// string where that range is not a valid slice of `s` (what
/// `s.get(start..end).unwrap_or("")` gives).
pub open spec fn byte_range(s: Seq<char>, start: int, end: int) -> Seq<char> {
    let bytes = encode_utf8(s);
    if 0 <= start <= end <= bytes.len() && is_char_boundary(bytes, start) && is_char_boundary(
        bytes,
        end,
    ) {
        decode_utf8(bytes.subrange(start, end))
    } else {
        Seq::empty()
    }
}

/// `byte_range` up to the end of `s` (what `s.get(start..).unwrap_or("")` gives).
pub open spec fn byte_range_from(s: Seq<char>, start: int) -> Seq<char> {
    byte_range(s, start, encode_utf8(s).len() as int)
}

proof fn lemma_boundary_in_suffix(bytes: Seq<u8>, start: int, end: int)
    requires
        valid_utf8(bytes),
        0 <= start <= end <= bytes.len(),
        is_char_boundary(bytes, start),
        is_char_boundary(bytes, end),
    ensures
        valid_utf8(bytes.subrange(start, bytes.len() as int)),
        is_char_boundary(bytes.subrange(start, bytes.len() as int), end - start),
{
    let rest = bytes.subrange(start, bytes.len() as int);
    assert(valid_utf8(rest));
    if end == bytes.len() {
        assert(is_char_boundary(rest, rest.len() as int));
    } else {
        assert(rest[end - start] == bytes[end]);
        assert(is_char_boundary(bytes, end) <==> !is_continuation_byte(bytes[end]));
        assert(is_char_boundary(rest, end - start) <==> !is_continuation_byte(rest[end - start]));
    }
}

/// The slice of `s` between byte offsets `start` and `end`, or `""` where that
/// is not a valid slice.
pub fn slice_bytes<'a>(s: &'a str, start: usize, end: usize) -> (r: &'a str)
    ensures
        r@ == byte_range(s@, start as int, end as int),
{
    let n = s.as_bytes().len();
    if start <= end && end <= n && s.is_char_boundary(start) && s.is_char_boundary(end) {
        let ghost bytes = s.spec_bytes();
        proof {
            lemma_boundary_in_suffix(bytes, start as int, end as int);
        }
        let (_, rest) = s.split_at(start);
        let (mid, _) = rest.split_at(end - start);
        assert(mid.spec_bytes() =~= bytes.subrange(start as int, end as int));
        assert(decode_utf8(encode_utf8(mid@)) == mid@);
        mid
    } else {
        proof {
            reveal_strlit("");
        }
        ""
    }
}

/// The slice of `s` from byte offset `start` to its end, or `""` where that is
/// not a valid slice.
pub fn slice_bytes_from<'a>(s: &'a str, start: usize) -> (r: &'a str)
    ensures
        r@ == byte_range_from(s@, start as int),
{
    let n = s.as_bytes().len();
    slice_bytes(s, start, n)
}

/// A character with the Unicode `White_Space` property (`char::is_whitespace`).
pub open spec fn is_whitespace(c: char) -> bool {
    let u = c as u32;
    ||| 0x09 <= u <= 0x0D
    ||| u == 0x20
    ||| u == 0x85
    ||| u == 0xA0
    ||| u == 0x1680
    ||| 0x2000 <= u <= 0x200A
    ||| u == 0x2028
    ||| u == 0x2029
    ||| u == 0x202F
    ||| u == 0x205F
    ||| u == 0x3000
}

/// `char::is_whitespace`.
pub fn char_is_whitespace(c: char) -> (r: bool)
    ensures
        r == is_whitespace(c),
{
    let u = c as u32;
    (0x09 <= u && u <= 0x0D) || u == 0x20 || u == 0x85 || u == 0xA0 || u == 0x1680 || (0x2000 <= u
        && u <= 0x200A) || u == 0x2028 || u == 0x2029 || u == 0x202F || u == 0x205F || u == 0x3000
}

/// `s` without its leading whitespace.
pub open spec fn trim_start(s: Seq<char>) -> Seq<char>
    decreases s.len(),
{
    if s.len() > 0 && is_whitespace(s[0]) {
        trim_start(s.drop_first())
    } else {
        s
    }
}

/// `s` without its trailing whitespace.
pub open spec fn trim_end(s: Seq<char>) -> Seq<char>
    decreases s.len(),
{
    if s.len() > 0 && is_whitespace(s.last()) {
        trim_end(s.drop_last())
    } else {
        s
    }
}

/// `s` without leading and trailing whitespace (`str::trim`).
pub open spec fn trim(s: Seq<char>) -> Seq<char> {
    trim_end(trim_start(s))
}

/// `str::trim`.
pub fn trim_str<'a>(s: &'a str) -> (r: &'a str)
    ensures
        r@ == trim(s@),
{
    let n = s.unicode_len();
    let mut i: usize = 0;
    assert(s@.subrange(0, n as int) =~= s@);
    while i < n
        invariant
            n == s@.len(),
            i <= n,
            trim_start(s@) == trim_start(s@.subrange(i as int, n as int)),
        ensures
            i <= n,
            trim_start(s@) == trim_start(s@.subrange(i as int, n as int)),
            i < n ==> !is_whitespace(s@[i as int]),
        decreases n - i,
    {
        if !char_is_whitespace(s.get_char(i)) {
            break;
        }
        assert(s@.subrange(i as int, n as int).drop_first() =~= s@.subrange(i + 1, n as int));
        i += 1;
    }
    assert(trim_start(s@) == s@.subrange(i as int, n as int)) by {
        if i < n {
            assert(s@.subrange(i as int, n as int)[0] == s@[i as int]);
        }
    }
    let mut j: usize = n;
    while j > i
        invariant
            n == s@.len(),
            i <= j <= n,
            trim(s@) == trim_end(s@.subrange(i as int, j as int)),
        ensures
            i <= j <= n,
            trim(s@) == trim_end(s@.subrange(i as int, j as int)),
            j > i ==> !is_whitespace(s@[j - 1]),
        decreases j - i,
    {
        if !char_is_whitespace(s.get_char(j - 1)) {
            break;
        }
        assert(s@.subrange(i as int, j as int).drop_last() =~= s@.subrange(i as int, j - 1));
        j -= 1;
    }
    let r = s.substring_char(i, j);
    assert(trim_end(s@.subrange(i as int, j as int)) == s@.subrange(i as int, j as int)) by {
        if j > i {
            assert(s@.subrange(i as int, j as int).last() == s@[j - 1]);
        }
    }
    r
}


/// The character of decimal digit `d`.
pub open spec fn digit_char(d: int) -> char {
    (48 + d) as char
}

/// The decimal digits of `n`, without leading zeros.
pub open spec fn spec_decimal(n: nat) -> Seq<char>
    decreases n,
{
    if n < 10 {
        seq![digit_char(n as int)]
    } else {
        spec_decimal(n / 10).push(digit_char((n % 10) as int))
    }
}

/// How `{}` shows an `i32`.
pub open spec fn spec_decimal_i32(v: i32) -> Seq<char> {
    if v < 0 {
        seq!['-'] + spec_decimal((-v) as nat)
    } else {
        spec_decimal(v as nat)
    }
}

fn digit_str(d: u64) -> (r: &'static str)
    requires
        d < 10,
    ensures
        r@ == seq![digit_char(d as int)],
{
    match d {
        0 => {
            proof {
                reveal_strlit("0");
            }
            assert("0"@ =~= seq![digit_char(0)]);
            "0"
        },
        1 => {
            proof {
                reveal_strlit("1");
            }
            assert("1"@ =~= seq![digit_char(1)]);
            "1"
        },
        2 => {
            proof {
                reveal_strlit("2");
            }
            assert("2"@ =~= seq![digit_char(2)]);
            "2"
        },
        3 => {
            proof {
                reveal_strlit("3");
            }
            assert("3"@ =~= seq![digit_char(3)]);
            "3"
        },
        4 => {
            proof {
                reveal_strlit("4");
            }
            assert("4"@ =~= seq![digit_char(4)]);
            "4"
        },
        5 => {
            proof {
                reveal_strlit("5");
            }
            assert("5"@ =~= seq![digit_char(5)]);
            "5"
        },
        6 => {
            proof {
                reveal_strlit("6");
            }
            assert("6"@ =~= seq![digit_char(6)]);
            "6"
        },
        7 => {
            proof {
                reveal_strlit("7");
            }
            assert("7"@ =~= seq![digit_char(7)]);
            "7"
        },
        8 => {
            proof {
                reveal_strlit("8");
            }
            assert("8"@ =~= seq![digit_char(8)]);
            "8"
        },
        _ => {
            proof {
                reveal_strlit("9");
            }
            assert("9"@ =~= seq![digit_char(9)]);
            "9"
        },
    }
}

/// The decimal text of `n` (what `{}` shows).
pub fn decimal_u64(n: u64) -> (r: String)
    ensures
        r@ == spec_decimal(n as nat),
    decreases n,
{
    if n < 10 {
        digit_str(n).to_owned()
    } else {
        let mut r = decimal_u64(n / 10);
        r.append(digit_str(n % 10));
        assert(r@ =~= spec_decimal(n as nat));
        r
    }
}

/// The decimal text of `v` (what `{}` shows).
pub fn decimal_i32(v: i32) -> (r: String)
    ensures
        r@ == spec_decimal_i32(v),
{
    if v < 0 {
        let magnitude = (0i64 - v as i64) as u64;
        let mut r = "-".to_owned();
        let digits = decimal_u64(magnitude);
        r.append(digits.as_str());
        proof {
            reveal_strlit("-");
        }
        assert(r@ =~= spec_decimal_i32(v));
        r
    } else {
        decimal_u64(v as u64)
    }
}


/// `parts` joined with `sep` between each two (`[T]::join`).
pub open spec fn join(parts: Seq<Seq<char>>, sep: Seq<char>) -> Seq<char>
    decreases parts.len(),
{
    if parts.len() == 0 {
        Seq::empty()
    } else if parts.len() == 1 {
        parts[0]
    } else {
        join(parts.drop_last(), sep) + sep + parts.last()
    }
}

/// The views of a sequence of strings.
pub open spec fn string_views(v: Seq<String>) -> Seq<Seq<char>> {
    v.map_values(|s: String| s@)
}

/// `parts` joined with `sep`.
pub fn join_strings(parts: &Vec<String>, sep: &str) -> (r: String)
    ensures
        r@ == join(string_views(parts@), sep@),
{
    let mut r = "".to_owned();
    proof {
        reveal_strlit("");
    }
    let n = parts.len();
    let mut i: usize = 0;
    while i < n
        invariant
            n == parts@.len(),
            i <= n,
            r@ == join(string_views(parts@).take(i as int), sep@),
        decreases n - i,
    {
        assert(string_views(parts@).take(i + 1).drop_last() =~= string_views(parts@).take(
            i as int,
        ));
        if i > 0 {
            r.append(sep);
        }
        r.append(parts[i].as_str());
        assert(r@ =~= join(string_views(parts@).take(i + 1), sep@));
        i += 1;
    }
    assert(string_views(parts@).take(n as int) =~= string_views(parts@));
    r
}

/// The UTF-16 code units of one character.
pub open spec fn utf16_units(c: char) -> Seq<u16> {
    let u = c as u32;
    if u < 0x10000 {
        seq![u as u16]
    } else {
        let v = (u - 0x10000) as u32;
        seq![(0xD800 + v / 0x400) as u16, (0xDC00 + v % 0x400) as u16]
    }
}

/// The UTF-16 encoding of `s` (`str::encode_utf16`).
pub open spec fn encode_utf16(s: Seq<char>) -> Seq<u16>
    decreases s.len(),
{
    if s.len() == 0 {
        Seq::empty()
    } else {
        encode_utf16(s.drop_last()) + utf16_units(s.last())
    }
}

/// The UTF-16 encoding of `value` followed by a terminating zero, as wide
/// Windows APIs take text.
pub fn to_wide(value: &str) -> (r: Vec<u16>)
    ensures
        r@ == encode_utf16(value@).push(0),
{
    let n = value.unicode_len();
    let mut r: Vec<u16> = Vec::new();
    let mut i: usize = 0;
    while i < n
        invariant
            n == value@.len(),
            i <= n,
            r@ == encode_utf16(value@.take(i as int)),
        decreases n - i,
    {
        let c = value.get_char(i);
        assert(value@.take(i + 1).drop_last() =~= value@.take(i as int));
        let u = c as u32;
        if u < 0x10000 {
            r.push(u as u16);
        } else {
            assert(u <= 0x10FFFF);
            let v = u - 0x10000;
            r.push((0xD800 + v / 0x400) as u16);
            r.push((0xDC00 + v % 0x400) as u16);
        }
        assert(r@ =~= encode_utf16(value@.take(i + 1)));
        i += 1;
    }
    assert(value@.take(n as int) =~= value@);
    r.push(0);
    r
}

/// `s` has no whitespace at either end.
pub open spec fn is_trimmed(s: Seq<char>) -> bool {
    s.len() == 0 || (!is_whitespace(s[0]) && !is_whitespace(s.last()))
}

proof fn lemma_trim_start_no_leading(s: Seq<char>)
    ensures
        trim_start(s).len() == 0 || !is_whitespace(trim_start(s)[0]),
    decreases s.len(),
{
    if s.len() > 0 && is_whitespace(s[0]) {
        lemma_trim_start_no_leading(s.drop_first());
    }
}

proof fn lemma_trim_end_prefix(s: Seq<char>)
    ensures
        trim_end(s).len() <= s.len(),
        trim_end(s) == s.take(trim_end(s).len() as int),
        trim_end(s).len() == 0 || !is_whitespace(trim_end(s).last()),
    decreases s.len(),
{
    if s.len() > 0 && is_whitespace(s.last()) {
        lemma_trim_end_prefix(s.drop_last());
        assert(s.drop_last().take(trim_end(s).len() as int) =~= s.take(trim_end(s).len() as int));
    } else {
        assert(s.take(s.len() as int) =~= s);
    }
}

/// Trimming leaves no whitespace at either end, and trimming again changes nothing.
pub proof fn lemma_trim_is_trimmed(s: Seq<char>)
    ensures
        is_trimmed(trim(s)),
        trim(trim(s)) == trim(s),
{
    let t = trim_start(s);
    lemma_trim_start_no_leading(s);
    lemma_trim_end_prefix(t);
    let r = trim_end(t);
    if r.len() > 0 {
        assert(r[0] == t[0]);
    }
    assert(trim_start(r) == r);
    assert(trim_end(r) == r);
}

proof fn lemma_split_newlines_no_newline(s: Seq<char>)
    ensures
        forall|i: int, j: int|
            0 <= i < split_newlines(s).0.len() && 0 <= j < split_newlines(s).0[i].len()
                ==> split_newlines(s).0[i][j] != '\n',
        forall|j: int| 0 <= j < split_newlines(s).1.len() ==> split_newlines(s).1[j] != '\n',
    decreases s.len(),
{
    if s.len() > 0 {
        lemma_split_newlines_no_newline(s.drop_last());
        let (done, rest) = split_newlines(s.drop_last());
        if s.last() == '\n' {
            let line = strip_cr(rest);
            assert(forall|j: int| 0 <= j < line.len() ==> line[j] == rest[j]);
            assert forall|i: int, j: int|
                0 <= i < split_newlines(s).0.len() && 0 <= j < split_newlines(
                    s,
                ).0[i].len() implies split_newlines(s).0[i][j] != '\n' by {
                if i < done.len() {
                    assert(split_newlines(s).0[i] == done[i]);
                } else {
                    assert(split_newlines(s).0[i] == line);
                }
            }
        } else {
            assert forall|j: int| 0 <= j < split_newlines(s).1.len() implies split_newlines(s).1[j]
                != '\n' by {
                if j < rest.len() {
                    assert(split_newlines(s).1[j] == rest[j]);
                }
            }
        }
    }
}

/// No line of a text holds a line feed.
pub proof fn lemma_lines_have_no_newline(s: Seq<char>)
    ensures
        forall|i: int, j: int|
            0 <= i < lines_of(s).len() && 0 <= j < lines_of(s)[i].len() ==> lines_of(s)[i][j]
                != '\n',
{
    lemma_split_newlines_no_newline(s);
    let (done, rest) = split_newlines(s);
    assert forall|i: int, j: int|
        0 <= i < lines_of(s).len() && 0 <= j < lines_of(s)[i].len() implies lines_of(s)[i][j]
        != '\n' by {
        if i < done.len() {
            assert(lines_of(s)[i] == done[i]);
        } else {
            assert(lines_of(s)[i] == rest);
        }
    }
}


proof fn lemma_split_newlines_append(a: Seq<char>, b: Seq<char>)
    requires
        a.len() > 0,
        a.last() == '\n',
    ensures
        split_newlines(a).1 == Seq::<char>::empty(),
        split_newlines(a + b) == (split_newlines(a).0 + split_newlines(b).0, split_newlines(b).1),
    decreases b.len(),
{
    if b.len() == 0 {
        assert(a + b =~= a);
        assert(split_newlines(a).0 + split_newlines(b).0 =~= split_newlines(a).0);
    } else {
        lemma_split_newlines_append(a, b.drop_last());
        assert((a + b).drop_last() =~= a + b.drop_last());
        assert((a + b).last() == b.last());
        let (da, _) = split_newlines(a);
        let (db, rb) = split_newlines(b.drop_last());
        if b.last() == '\n' {
            assert(da + db.push(strip_cr(rb)) =~= (da + db).push(strip_cr(rb)));
        }
    }
}

/// The lines of a text that ends with a line feed, followed by more text, are
/// the lines of the first text followed by those of the rest.
pub proof fn lemma_lines_append(a: Seq<char>, b: Seq<char>)
    requires
        a.len() > 0,
        a.last() == '\n',
    ensures
        lines_of(a + b) == lines_of(a) + lines_of(b),
{
    lemma_split_newlines_append(a, b);
    let (da, _) = split_newlines(a);
    let (db, rb) = split_newlines(b);
    if rb.len() == 0 {
        assert(lines_of(a + b) =~= lines_of(a) + lines_of(b));
    } else {
        assert(lines_of(a + b) =~= lines_of(a) + lines_of(b));
    }
}


/// The UTF-8 encoding of a concatenation is the concatenation of the encodings.
pub proof fn lemma_encode_utf8_append(a: Seq<char>, b: Seq<char>)
    ensures
        encode_utf8(a + b) == encode_utf8(a) + encode_utf8(b),
    decreases a.len(),
{
    if a.len() == 0 {
        assert(a + b =~= b);
        assert(encode_utf8(a) + encode_utf8(b) =~= encode_utf8(b));
    } else {
        lemma_encode_utf8_append(a.drop_first(), b);
        assert((a + b).drop_first() =~= a.drop_first() + b);
        assert((a + b)[0] == a[0]);
        assert(encode_utf8(a + b) =~= encode_utf8(a) + encode_utf8(b));
    }
}

proof fn lemma_encode_ascii_char(c: char)
    requires
        (c as u32) < 128,
    ensures
        encode_utf8(seq![c]) == seq![(c as u32) as u8],
{
    let u = c as u32;
    assert(u & 0x7F == u) by (bit_vector)
        requires
            u < 128,
    ;
    assert(seq![c].drop_first() =~= Seq::<char>::empty());
    assert(seq![c][0] == c);
    assert(has_width_1_encoding(u));
    assert(encode_scalar(u) == seq![leading_byte_width_1(u)]);
    assert(leading_byte_width_1(u) == u as u8);
    assert(encode_utf8(seq![c]) =~= encode_scalar(u) + encode_utf8(Seq::<char>::empty()));
    assert(encode_utf8(seq![c]) =~= seq![(c as u32) as u8]);
}

/// Removing a last ASCII character that differs from the last character of
/// `pat` keeps every occurrence of `pat`.
pub proof fn lemma_contains_without_last(x: Seq<char>, pat: Seq<char>)
    requires
        x.len() > 0,
        pat.len() > 0,
        (x.last() as u32) < 128,
        (pat.last() as u32) < 128,
        x.last() != pat.last(),
        contains_in(encode_utf8(x), encode_utf8(pat)),
    ensures
        contains_in(encode_utf8(x.drop_last()), encode_utf8(pat)),
{
    let y = x.drop_last();
    assert(y + seq![x.last()] =~= x);
    lemma_encode_utf8_append(y, seq![x.last()]);
    lemma_encode_ascii_char(x.last());
    assert(pat.drop_last() + seq![pat.last()] =~= pat);
    lemma_encode_utf8_append(pat.drop_last(), seq![pat.last()]);
    lemma_encode_ascii_char(pat.last());
    let e = encode_utf8(x);
    let ep = encode_utf8(pat);
    let ey = encode_utf8(y);
    lemma_find_in(e, ep);
    let i = find_in(e, ep)->0;
    assert(matches_at(e, ep, i));
    assert(e.len() == ey.len() + 1);
    assert(ep.len() >= 1);
    if i + ep.len() == e.len() {
        assert(e.subrange(i, i + ep.len())[ep.len() - 1] == e[e.len() - 1]);
        assert(e[e.len() - 1] == (x.last() as u32) as u8);
        assert(ep[ep.len() - 1] == (pat.last() as u32) as u8);
        assert((x.last() as u32) == (pat.last() as u32));
        vstd::utf8::char_u32_cast(x.last(), x.last() as u32);
        vstd::utf8::char_u32_cast(pat.last(), pat.last() as u32);
        assert(false);
    }
    assert(ey.subrange(i, i + ep.len()) =~= e.subrange(i, i + ep.len()));
    assert(matches_at(ey, ep, i));
    lemma_find_in(ey, ep);
}

proof fn lemma_split_newlines_single_line(h: Seq<char>)
    requires
        forall|i: int| 0 <= i < h.len() ==> h[i] != '\n',
    ensures
        split_newlines(h) == (Seq::<Seq<char>>::empty(), h),
    decreases h.len(),
{
    if h.len() > 0 {
        lemma_split_newlines_single_line(h.drop_last());
        assert(h.drop_last().push(h.last()) =~= h);
    }
}

/// A line without a line feed, ended by one, is that line (without any
/// carriage return before the line feed).
pub proof fn lemma_lines_of_one_line(h: Seq<char>)
    requires
        forall|i: int| 0 <= i < h.len() ==> h[i] != '\n',
    ensures
        lines_of(h + seq!['\n']) == seq![strip_cr(h)],
{
    lemma_split_newlines_single_line(h);
    let a = h + seq!['\n'];
    assert(a.drop_last() =~= h);
    assert(Seq::<Seq<char>>::empty().push(strip_cr(h)) =~= seq![strip_cr(h)]);
}

/// Two lines without line feeds, each ended by one, followed by `rest`: the
/// lines are those two and then the lines of `rest`.
pub proof fn lemma_lines_two_then(h: Seq<char>, x: Seq<char>, rest: Seq<char>)
    requires
        forall|i: int| 0 <= i < h.len() ==> h[i] != '\n',
        forall|i: int| 0 <= i < x.len() ==> x[i] != '\n',
    ensures
        lines_of(h + seq!['\n'] + x + seq!['\n'] + rest) == seq![strip_cr(h), strip_cr(x)]
            + lines_of(rest),
{
    let a1 = h + seq!['\n'];
    let a2 = x + seq!['\n'];
    lemma_lines_of_one_line(h);
    lemma_lines_of_one_line(x);
    lemma_lines_append(a2, rest);
    lemma_lines_append(a1, a2 + rest);
    assert(h + seq!['\n'] + x + seq!['\n'] + rest =~= a1 + (a2 + rest));
    assert(seq![strip_cr(h)] + (seq![strip_cr(x)] + lines_of(rest)) =~= seq![
        strip_cr(h),
        strip_cr(x),
    ] + lines_of(rest));
}

/// Appending a line feed and more text to `s` keeps the lines of `s`, except
/// that its last line may lose a trailing carriage return.
pub proof fn lemma_lines_after_line_feed(s: Seq<char>, t: Seq<char>)
    ensures
        lines_of(s + seq!['\n'] + t).len() >= lines_of(s).len(),
        forall|i: int|
            0 <= i < lines_of(s).len() ==> (lines_of(s + seq!['\n'] + t)[i] == lines_of(s)[i]
                || (i == lines_of(s).len() - 1 && lines_of(s + seq!['\n'] + t)[i] == strip_cr(
                lines_of(s)[i],
            ))),
{
    let a = s + seq!['\n'];
    lemma_lines_append(a, t);
    assert(a.drop_last() =~= s);
    let (done, rest) = split_newlines(s);
    assert(lines_of(a) == done.push(strip_cr(rest)));
    let u = s + seq!['\n'] + t;
    assert(lines_of(u) == lines_of(a) + lines_of(t));
    assert forall|i: int| 0 <= i < lines_of(s).len() implies (lines_of(u)[i] == lines_of(s)[i] || (
    i == lines_of(s).len() - 1 && lines_of(u)[i] == strip_cr(lines_of(s)[i]))) by {
        assert(lines_of(u)[i] == lines_of(a)[i]);
        if i < done.len() {
            assert(lines_of(a)[i] == done[i]);
            assert(lines_of(s)[i] == done[i]);
        } else {
            assert(lines_of(a)[i] == strip_cr(rest));
            assert(lines_of(s)[i] == rest);
        }
    }
}


/// `s` is a non-empty run of the digits '0' to '9'.
pub open spec fn is_decimal_digits(s: Seq<char>) -> bool {
    s.len() > 0 && forall|i: int| 0 <= i < s.len() ==> '0' <= #[trigger] s[i] <= '9'
}

/// The number that a run of decimal digits denotes.
pub open spec fn decimal_value(s: Seq<char>) -> int
    decreases s.len(),
{
    if s.len() == 0 {
        0
    } else {
        decimal_value(s.drop_last()) * 10 + ((s.last() as u32) - 48)
    }
}

/// The decimal text of `n` is a run of digits without a leading zero that
/// denotes `n`.
pub proof fn lemma_decimal_denotes(n: nat)
    ensures
        is_decimal_digits(spec_decimal(n)),
        decimal_value(spec_decimal(n)) == n,
        n > 0 ==> spec_decimal(n)[0] != '0',
    decreases n,
{
    if n < 10 {
        let c = digit_char(n as int);
        assert((c as u32) == 48 + n);
        assert(spec_decimal(n).drop_last() =~= Seq::<char>::empty());
        assert(spec_decimal(n).last() == c);
        assert(decimal_value(Seq::<char>::empty()) == 0);
        assert(decimal_value(spec_decimal(n)) == 0 * 10 + ((c as u32) - 48));
    } else {
        lemma_decimal_denotes(n / 10);
        let d = spec_decimal(n / 10);
        let c = digit_char((n % 10) as int);
        assert((c as u32) == 48 + n % 10);
        assert(spec_decimal(n).drop_last() =~= d);
        assert(spec_decimal(n).last() == c);
        assert(decimal_value(spec_decimal(n)) == decimal_value(d) * 10 + ((c as u32) - 48));
        assert((n / 10) * 10 + n % 10 == n);
        assert(spec_decimal(n)[0] == d[0]);
        assert forall|i: int| 0 <= i < spec_decimal(n).len() implies '0' <= #[trigger] spec_decimal(
            n,
        )[i] <= '9' by {
            if i < d.len() {
                assert(spec_decimal(n)[i] == d[i]);
            }
        }
    }
}

/// Joining two non-empty lists is joining each and putting the separator between.
pub proof fn lemma_join_append(x: Seq<Seq<char>>, y: Seq<Seq<char>>, sep: Seq<char>)
    requires
        x.len() > 0,
        y.len() > 0,
    ensures
        join(x + y, sep) == join(x, sep) + sep + join(y, sep),
    decreases y.len(),
{
    if y.len() == 1 {
        assert((x + y).drop_last() =~= x);
        assert((x + y).last() == y[0]);
    } else {
        lemma_join_append(x, y.drop_last(), sep);
        assert((x + y).drop_last() =~= x + y.drop_last());
        assert((x + y).last() == y.last());
        assert(join(x + y, sep) =~= join(x, sep) + sep + join(y, sep));
    }
}


/// An ASCII upper-case letter made lower-case; every other character as it is.
pub open spec fn ascii_lower_char(c: char) -> char {
    if 'A' <= c <= 'Z' {
        ((c as u32) + 32) as char
    } else {
        c
    }
}

/// `s` with each ASCII upper-case letter made lower-case.
pub open spec fn ascii_lowercase(s: Seq<char>) -> Seq<char> {
    Seq::new(s.len(), |i: int| ascii_lower_char(s[i]))
}

/// An ASCII upper-case letter's byte made lower-case; every other byte as it is.
pub open spec fn ascii_lower_byte(b: u8) -> u8 {
    if 65 <= b <= 90 {
        (b + 32) as u8
    } else {
        b
    }
}

/// The bytes of `b` with each ASCII upper-case letter made lower-case.
pub fn ascii_lowercase_bytes(b: &[u8]) -> (r: Vec<u8>)
    ensures
        r@ == Seq::new(b@.len(), |i: int| ascii_lower_byte(b@[i])),
{
    let n = b.len();
    let mut r: Vec<u8> = Vec::new();
    let mut i: usize = 0;
    while i < n
        invariant
            n == b@.len(),
            i <= n,
            r@ == Seq::new(i as nat, |j: int| ascii_lower_byte(b@[j])),
        decreases n - i,
    {
        let x = b[i];
        let y = if 65 <= x && x <= 90 {
            x + 32
        } else {
            x
        };
        r.push(y);
        assert(r@ =~= Seq::new((i + 1) as nat, |j: int| ascii_lower_byte(b@[j])));
        i += 1;
    }
    r
}

/// On ASCII text the bytes of the ASCII lower-casing are the lower-cased bytes.
pub proof fn lemma_ascii_lowercase_bytes(s: Seq<char>)
    requires
        is_ascii_chars(s),
    ensures
        is_ascii_chars(ascii_lowercase(s)),
        encode_utf8(ascii_lowercase(s)) == Seq::new(
            encode_utf8(s).len(),
            |i: int| ascii_lower_byte(encode_utf8(s)[i]),
        ),
{
    let l = ascii_lowercase(s);
    assert forall|i: int| 0 <= i < l.len() implies '\0' <= #[trigger] l[i] <= '\u{7f}' by {
        assert(s[i] <= '\u{7f}');
    }
    is_ascii_chars_encode_utf8(s);
    is_ascii_chars_encode_utf8(l);
    assert forall|i: int| 0 <= i < l.len() implies encode_utf8(l)[i] == ascii_lower_byte(
        encode_utf8(s)[i],
    ) by {
        let c = s[i];
        let u = c as u32;
        assert(l[i] == ascii_lower_char(c));
        assert(encode_utf8(s)[i] == c as u8);
        assert(encode_utf8(l)[i] == l[i] as u8);
        assert(u < 128);
        if 'A' <= c <= 'Z' {
            assert(65 <= u <= 90);
            assert((l[i] as u32) == u + 32);
        } else {
            assert(!(65 <= u <= 90));
        }
    }
    assert(encode_utf8(l) =~= Seq::new(
        encode_utf8(s).len(),
        |i: int| ascii_lower_byte(encode_utf8(s)[i]),
    ));
}


/// `pat` occurs in `s` starting at character `k`.
pub open spec fn occurs_at(s: Seq<char>, pat: Seq<char>, k: int) -> bool {
    &&& 0 <= k
    &&& k + pat.len() <= s.len()
    &&& s.subrange(k, k + pat.len()) == pat
}

/// `k` is where `pat` first occurs in `s`.
pub open spec fn first_occurrence(s: Seq<char>, pat: Seq<char>, k: int) -> bool {
    &&& occurs_at(s, pat, k)
    &&& forall|j: int| 0 <= j < k ==> !occurs_at(s, pat, j)
}

proof fn lemma_ascii_match(s: Seq<char>, pat: Seq<char>, k: int)
    requires
        is_ascii_chars(s),
        is_ascii_chars(pat),
    ensures
        matches_at(encode_utf8(s), encode_utf8(pat), k) <==> occurs_at(s, pat, k),
{
    is_ascii_chars_encode_utf8(s);
    is_ascii_chars_encode_utf8(pat);
    let es = encode_utf8(s);
    let ep = encode_utf8(pat);
    if 0 <= k && k + pat.len() <= s.len() {
        if matches_at(es, ep, k) {
            assert forall|j: int| 0 <= j < pat.len() implies s.subrange(k, k + pat.len())[j]
                == pat[j] by {
                assert(es.subrange(k, k + pat.len())[j] == ep[j]);
                assert(es[k + j] == s[k + j] as u8);
                assert(ep[j] == pat[j] as u8);
                assert((s[k + j] as u32) < 128);
                assert((pat[j] as u32) < 128);
                vstd::utf8::char_u32_cast(s[k + j], s[k + j] as u32);
                vstd::utf8::char_u32_cast(pat[j], pat[j] as u32);
            }
            assert(s.subrange(k, k + pat.len()) =~= pat);
        }
        if occurs_at(s, pat, k) {
            assert forall|j: int| 0 <= j < pat.len() implies es.subrange(k, k + pat.len())[j]
                == ep[j] by {
                assert(s.subrange(k, k + pat.len())[j] == pat[j]);
                assert(es[k + j] == s[k + j] as u8);
            }
            assert(es.subrange(k, k + pat.len()) =~= ep);
        }
    }
}

/// On ASCII text the byte search finds the first character position where the
/// pattern occurs, and finds nothing exactly when it occurs nowhere.
pub proof fn lemma_ascii_find(s: Seq<char>, pat: Seq<char>)
    requires
        is_ascii_chars(s),
        is_ascii_chars(pat),
    ensures
        find_in(encode_utf8(s), encode_utf8(pat)) matches Some(k) ==> first_occurrence(s, pat, k),
        find_in(encode_utf8(s), encode_utf8(pat)) is None <==> forall|j: int|
            !#[trigger] occurs_at(s, pat, j),
{
    lemma_find_in(encode_utf8(s), encode_utf8(pat));
    assert forall|j: int| #[trigger]
        occurs_at(s, pat, j) == matches_at(encode_utf8(s), encode_utf8(pat), j) by {
        lemma_ascii_match(s, pat, j);
    }
    if find_in(encode_utf8(s), encode_utf8(pat)) is None {
        assert forall|j: int| !#[trigger] occurs_at(s, pat, j) by {
            assert(!matches_at(encode_utf8(s), encode_utf8(pat), j));
        }
    } else {
        let k = find_in(encode_utf8(s), encode_utf8(pat))->0;
        assert(occurs_at(s, pat, k));
    }
}

} // verus!
