//! The fixed-width table that `winget upgrade` prints, read into typed rows.
//!
//! The column offsets are the byte positions of the column names in the
//! lower-cased header line; each data row is sliced at those offsets, and the
//! line that reports how many upgrades are available ends the table.
use vstd::prelude::*;
use vstd::utf8::*;

use crate::error::ParseFailure;
use crate::error::ParsePackageSourceError;
use crate::error::ParseWingetError;
use crate::text::ascii_lowercase;
use crate::text::ascii_lowercase_bytes;
use crate::text::byte_range;
use crate::text::first_occurrence;
use crate::text::lemma_ascii_find;
use crate::text::lemma_ascii_lowercase_bytes;
use crate::text::occurs_at;
use crate::text::byte_range_from;
use crate::text::contains_in;
use crate::text::find_bytes;
use crate::text::find_in;
use crate::text::is_trimmed;
use crate::text::lemma_contains_without_last;
use crate::text::lemma_lines_after_line_feed;
use crate::text::lemma_lines_append;
use crate::text::lemma_lines_two_then;
use crate::text::strip_cr;
use crate::text::lemma_trim_is_trimmed;
use crate::text::lines_of;
use crate::text::slice_bytes;
use crate::text::slice_bytes_from;
use crate::text::split_lines;
use crate::text::trim;
use crate::text::trim_str;
use crate::text::views;

verus! {

/// A single row parsed from `winget upgrade` tabular output.
#[derive(Debug, Clone, PartialEq, Eq, PartialOrd, Ord)]
pub struct WingetUpdateOutput {
    /// Display name of the package (the "Name" column).
    pub name: String,
    /// Unique package identifier (the "Id" column).
    pub id: String,
    /// Currently installed version (the "Version" column).
    pub version: String,
    /// Newest version available in the source (the "Available" column).
    pub available: String,
    /// Repository that provides the package (the "Source" column).
    pub source: PackageSource,
}

/// Repository that provides a package.
#[derive(Debug, Clone, Copy, PartialEq, Eq, PartialOrd, Ord)]
pub enum PackageSource {
    /// winget
    WinGet,
    /// msstore
    MsStore,
}

/// The model of a `WingetUpdateOutput`: its columns as character sequences.
pub struct PackageUpdate {
    pub name: Seq<char>,
    pub id: Seq<char>,
    pub version: Seq<char>,
    pub available: Seq<char>,
    pub source: PackageSource,
}

impl View for WingetUpdateOutput {
    type V = PackageUpdate;

    open spec fn view(&self) -> PackageUpdate {
        PackageUpdate {
            name: self.name@,
            id: self.id@,
            version: self.version@,
            available: self.available@,
            source: self.source,
        }
    }
}

/// The models of a sequence of rows.
pub open spec fn updates_view(v: Seq<WingetUpdateOutput>) -> Seq<PackageUpdate> {
    v.map_values(|u: WingetUpdateOutput| u@)
}

/// The source that a source column names, if it names one.
pub open spec fn source_named(s: Seq<char>) -> Option<PackageSource> {
    if s == "winget"@ {
        Some(PackageSource::WinGet)
    } else if s == "msstore"@ {
        Some(PackageSource::MsStore)
    } else {
        None
    }
}

/// The name of a source as winget prints it.
pub open spec fn source_text(source: PackageSource) -> Seq<char> {
    match source {
        PackageSource::WinGet => "winget"@,
        PackageSource::MsStore => "msstore"@,
    }
}

impl PackageSource {
    /// The name of the source as winget prints it.
    pub fn as_str(&self) -> (r: &'static str)
        ensures
            r@ == source_text(*self),
    {
        match self {
            PackageSource::WinGet => "winget",
            PackageSource::MsStore => "msstore",
        }
    }
}

impl TryFrom<String> for PackageSource {
    type Error = ParsePackageSourceError;

    fn try_from(value: String) -> (r: Result<Self, Self::Error>) {
        if value == "winget".to_owned() {
            Ok(PackageSource::WinGet)
        } else if value == "msstore".to_owned() {
            Ok(PackageSource::MsStore)
        } else {
            Err(ParsePackageSourceError { input: value })
        }
    }
}

impl vstd::std_specs::convert::TryFromSpecImpl<String> for PackageSource {
    open spec fn obeys_try_from_spec() -> bool {
        true
    }

    open spec fn try_from_spec(value: String) -> Result<Self, Self::Error> {
        match source_named(value@) {
            Some(source) => Ok(source),
            None => Err(ParsePackageSourceError { input: value }),
        }
    }
}

/// Byte offsets of the five columns, taken from the header line.
#[derive(Debug, Clone, Copy)]
pub struct Positions {
    pub name_offset: usize,
    pub id_offset: usize,
    pub version_offset: usize,
    pub available_offset: usize,
    pub source_offset: usize,
}

/// The text that `str::to_lowercase` gives for `s`.
pub uninterp spec fn lowercase(s: Seq<char>) -> Seq<char>;

/// Calls `str::to_lowercase`; its result is named `lowercase` of the argument.
/// Of ASCII text it is the ASCII lower-casing, as Unicode's case mapping (which
/// std follows) maps 'A'..'Z' to 'a'..'z' and leaves the other ASCII
/// characters as they are; beyond ASCII nothing more is claimed.
#[verifier::external_body]
fn to_lowercase(s: &str) -> (r: String)
    ensures
        r@ == lowercase(s@),
        is_ascii_chars(s@) ==> r@ == ascii_lowercase(s@),
{
    s.to_lowercase()
}

/// The column offsets found in the bytes of a lower-cased header line: the
/// position of the first occurrence of each column name, if all five occur.
pub open spec fn byte_positions(b: Seq<u8>) -> Option<Positions> {
    match (
        find_in(b, encode_utf8("name"@)),
        find_in(b, encode_utf8("id"@)),
        find_in(b, encode_utf8("version"@)),
        find_in(b, encode_utf8("available"@)),
        find_in(b, encode_utf8("source"@)),
    ) {
        (Some(n), Some(i), Some(v), Some(a), Some(s)) => Some(
            Positions {
                name_offset: n as usize,
                id_offset: i as usize,
                version_offset: v as usize,
                available_offset: a as usize,
                source_offset: s as usize,
            },
        ),
        _ => None,
    }
}

/// The column offsets found in a lower-cased header line: the byte position
/// of the first occurrence of each column name, if all five occur.
pub open spec fn header_positions(lower: Seq<char>) -> Option<Positions> {
    byte_positions(encode_utf8(lower))
}

/// The column offsets in the bytes of a lower-cased header line.
pub fn positions_in_bytes(b: &[u8]) -> (r: Option<Positions>)
    ensures
        r == byte_positions(b@),
{
    let name_offset = find_bytes(b, "name".as_bytes())?;
    let id_offset = find_bytes(b, "id".as_bytes())?;
    let version_offset = find_bytes(b, "version".as_bytes())?;
    let available_offset = find_bytes(b, "available".as_bytes())?;
    let source_offset = find_bytes(b, "source".as_bytes())?;
    Some(Positions { name_offset, id_offset, version_offset, available_offset, source_offset })
}

/// The column offsets in a header line that is already lower-cased.
pub fn positions_in_lowercase(lower: &str) -> (r: Option<Positions>)
    ensures
        r == header_positions(lower@),
{
    positions_in_bytes(lower.as_bytes())
}

/// The column offsets of a header line, found in its lower-cased text. An
/// ASCII header is lower-cased here, letter by letter, which is what std's
/// lower-casing gives for it; any other header is lower-cased by std.
pub fn parse_positions_from_header(header_line: &str) -> (r: Option<Positions>)
    ensures
        r == header_positions(lowercase(header_line@)),
        is_ascii_chars(header_line@) ==> r == header_positions(ascii_lowercase(header_line@)),
{
    let lower = to_lowercase(header_line);
    if header_line.is_ascii() {
        let bytes = ascii_lowercase_bytes(header_line.as_bytes());
        proof {
            lemma_ascii_lowercase_bytes(header_line@);
        }
        assert(bytes@ =~= encode_utf8(ascii_lowercase(header_line@)));
        positions_in_bytes(bytes.as_slice())
    } else {
        positions_in_lowercase(lower.as_str())
    }
}

/// The row that ends the table: it mentions "upgrades available".
pub open spec fn end_row(row: Seq<char>) -> bool {
    contains_in(encode_utf8(row), encode_utf8("upgrades available"@))
}

/// Whether `row` is the summary line that ends the table.
pub fn is_end_row(row: &str) -> (r: bool)
    ensures
        r == end_row(row@),
{
    find_bytes(row.as_bytes(), "upgrades available".as_bytes()).is_some()
}

/// The trimmed text of `row` between two byte offsets.
pub open spec fn column(row: Seq<char>, start: usize, end: usize) -> Seq<char> {
    trim(byte_range(row, start as int, end as int))
}

/// The trimmed text of `row` from the source offset to its end.
pub open spec fn source_column(p: Positions, row: Seq<char>) -> Seq<char> {
    trim(byte_range_from(row, p.source_offset as int))
}

/// A data row read with the given offsets; it fails when its source column
/// names no known source.
pub open spec fn row_spec(p: Positions, row: Seq<char>) -> Result<PackageUpdate, ParseFailure> {
    match source_named(source_column(p, row)) {
        Some(source) => Ok(
            PackageUpdate {
                name: column(row, p.name_offset, p.id_offset),
                id: column(row, p.id_offset, p.version_offset),
                version: column(row, p.version_offset, p.available_offset),
                available: column(row, p.available_offset, p.source_offset),
                source,
            },
        ),
        None => Err(ParseFailure::InvalidSource(source_column(p, row))),
    }
}

/// The data rows up to the end row (or the last row), read in order; the
/// first row that fails makes the whole fail.
pub open spec fn rows_spec(p: Positions, rows: Seq<Seq<char>>) -> Result<
    Seq<PackageUpdate>,
    ParseFailure,
>
    decreases rows.len(),
{
    if rows.len() == 0 || end_row(rows[0]) {
        Ok(Seq::empty())
    } else {
        match row_spec(p, rows[0]) {
            Err(e) => Err(e),
            Ok(u) => match rows_spec(p, rows.drop_first()) {
                Err(e) => Err(e),
                Ok(us) => Ok(seq![u] + us),
            },
        }
    }
}

/// The table in `s`: no lines give no rows; otherwise the first line is the
/// header, the second is skipped as the separator, and the rest are data rows.
pub open spec fn parse_spec(s: Seq<char>) -> Result<Seq<PackageUpdate>, ParseFailure> {
    let lines = lines_of(s);
    if lines.len() == 0 {
        Ok(Seq::empty())
    } else {
        match header_positions(lowercase(lines[0])) {
            None => Err(ParseFailure::HeaderParseFailed),
            Some(p) => rows_spec(
                p,
                lines.subrange(
                    if lines.len() < 2 {
                        lines.len() as int
                    } else {
                        2
                    },
                    lines.len() as int,
                ),
            ),
        }
    }
}

/// The model of a result of parsing.
pub open spec fn rows_result_view(r: Result<Vec<WingetUpdateOutput>, ParseWingetError>) -> Result<
    Seq<PackageUpdate>,
    ParseFailure,
> {
    match r {
        Ok(v) => Ok(updates_view(v@)),
        Err(e) => Err(e@),
    }
}

/// `prefix` put before the rows of `r`.
pub open spec fn prepend_rows(
    prefix: Seq<PackageUpdate>,
    r: Result<Seq<PackageUpdate>, ParseFailure>,
) -> Result<Seq<PackageUpdate>, ParseFailure> {
    match r {
        Ok(v) => Ok(prefix + v),
        Err(e) => Err(e),
    }
}

/// Reads one data row with the given column offsets.
pub fn parse_row(positions: &Positions, row: &str) -> (r: Result<
    WingetUpdateOutput,
    ParseWingetError,
>)
    ensures
        match r {
            Ok(u) => row_spec(*positions, row@) == Ok::<PackageUpdate, ParseFailure>(u@),
            Err(e) => row_spec(*positions, row@) == Err::<PackageUpdate, ParseFailure>(e@),
        },
{
    let name = trim_str(slice_bytes(row, positions.name_offset, positions.id_offset)).to_owned();
    let id = trim_str(slice_bytes(row, positions.id_offset, positions.version_offset)).to_owned();
    let version = trim_str(
        slice_bytes(row, positions.version_offset, positions.available_offset),
    ).to_owned();
    let available = trim_str(
        slice_bytes(row, positions.available_offset, positions.source_offset),
    ).to_owned();
    let source_str = trim_str(slice_bytes_from(row, positions.source_offset)).to_owned();
    let source = match PackageSource::try_from(source_str) {
        Ok(source) => source,
        Err(e) => return Err(ParseWingetError::InvalidSource(e)),
    };
    Ok(WingetUpdateOutput { name, id, version, available, source })
}

/// Reads data rows up to the end row with the given column offsets.
pub fn parse_rows(positions: &Positions, rows: &[&str]) -> (r: Result<
    Vec<WingetUpdateOutput>,
    ParseWingetError,
>)
    ensures
        rows_result_view(r) == rows_spec(*positions, views(rows@)),
{
    let mut result: Vec<WingetUpdateOutput> = Vec::new();
    let n = rows.len();
    let mut i: usize = 0;
    proof {
        assert(views(rows@).skip(0) =~= views(rows@));
        if let Ok(v) = rows_spec(*positions, views(rows@)) {
            assert(updates_view(result@) + v =~= v);
        }
    }
    while i < n
        invariant
            n == rows@.len(),
            i <= n,
            rows_spec(*positions, views(rows@)) == prepend_rows(
                updates_view(result@),
                rows_spec(*positions, views(rows@).skip(i as int)),
            ),
        decreases n - i,
    {
        let row = rows[i];
        let ghost rest = views(rows@).skip(i as int);
        assert(rest[0] == row@);
        assert(rest.drop_first() =~= views(rows@).skip(i + 1));
        if is_end_row(row) {
            return Ok(result);
        }
        match parse_row(positions, row) {
            Ok(u) => {
                let ghost before = updates_view(result@);
                result.push(u);
                assert(updates_view(result@) =~= before.push(u@));
                proof {
                    if let Ok(us) = rows_spec(*positions, views(rows@).skip(i + 1)) {
                        assert(before + (seq![u@] + us) =~= before.push(u@) + us);
                    }
                }
            },
            Err(e) => {
                return Err(e);
            },
        }
        i += 1;
    }
    assert(views(rows@).skip(n as int) =~= Seq::<Seq<char>>::empty());
    Ok(result)
}

/// Parses the text of `winget upgrade` into its rows.
pub fn parse_winget_raw(s: &str) -> (r: Result<Vec<WingetUpdateOutput>, ParseWingetError>)
    ensures
        rows_result_view(r) == parse_spec(s@),
{
    let lines = split_lines(s);
    if lines.len() == 0 {
        let empty: Vec<WingetUpdateOutput> = Vec::new();
        assert(updates_view(empty@) =~= Seq::<PackageUpdate>::empty());
        return Ok(empty);
    }
    let positions = match parse_positions_from_header(lines[0]) {
        Some(p) => p,
        None => return Err(ParseWingetError::HeaderParseFailed),
    };
    let from = if lines.len() < 2 {
        lines.len()
    } else {
        2
    };
    let (_, rows) = lines.as_slice().split_at(from);
    assert(views(rows@) =~= lines_of(s@).subrange(from as int, lines_of(s@).len() as int));
    parse_rows(&positions, rows)
}

/// The index of the first end row, or the number of rows where there is none.
pub open spec fn first_end_row(rows: Seq<Seq<char>>) -> nat
    decreases rows.len(),
{
    if rows.len() == 0 || end_row(rows[0]) {
        0
    } else {
        1 + first_end_row(rows.drop_first())
    }
}

/// The end row is a sentinel: reading the rows gives the same as reading only
/// those before any end row, so rows after it never matter.
pub proof fn lemma_end_row_stops(p: Positions, rows: Seq<Seq<char>>, k: int)
    requires
        0 <= k < rows.len(),
        end_row(rows[k]),
    ensures
        rows_spec(p, rows) == rows_spec(p, rows.take(k)),
    decreases k,
{
    if k == 0 {
    } else if end_row(rows[0]) {
        assert(rows.take(k)[0] == rows[0]);
    } else {
        lemma_end_row_stops(p, rows.drop_first(), k - 1);
        assert(rows.take(k).drop_first() =~= rows.drop_first().take(k - 1));
        assert(rows.take(k)[0] == rows[0]);
    }
}

/// Each data row before the end row gives exactly one package, in order, and
/// that package is the row read on its own; a failure is that of the first
/// data row that fails.
pub proof fn lemma_one_package_per_row(p: Positions, rows: Seq<Seq<char>>)
    ensures
        first_end_row(rows) <= rows.len(),
        rows_spec(p, rows) matches Ok(v) ==> {
            &&& v.len() == first_end_row(rows)
            &&& forall|i: int| 0 <= i < v.len() ==> row_spec(p, rows[i]) == Ok::<PackageUpdate, ParseFailure>(v[i])
        },
        rows_spec(p, rows) matches Err(e) ==> exists|k: int|
            {
                &&& 0 <= k < first_end_row(rows)
                &&& row_spec(p, rows[k]) == Err::<PackageUpdate, ParseFailure>(e)
                &&& forall|i: int| 0 <= i < k ==> (#[trigger] row_spec(p, rows[i])) is Ok
            },
    decreases rows.len(),
{
    if rows.len() == 0 || end_row(rows[0]) {
    } else {
        let tail = rows.drop_first();
        lemma_one_package_per_row(p, tail);
        match row_spec(p, rows[0]) {
            Err(e) => {
                assert(forall|i: int| 0 <= i < 0 ==> (#[trigger] row_spec(p, rows[i])) is Ok);
            },
            Ok(u) => {
                match rows_spec(p, tail) {
                    Ok(us) => {
                        let v = seq![u] + us;
                        assert forall|i: int| 0 <= i < v.len() implies row_spec(p, rows[i])
                            == Ok::<PackageUpdate, ParseFailure>(v[i]) by {
                            if i > 0 {
                                assert(rows[i] == tail[i - 1]);
                            }
                        }
                    },
                    Err(e) => {
                        let k = choose|k: int|
                            {
                                &&& 0 <= k < first_end_row(tail)
                                &&& row_spec(p, tail[k]) == Err::<PackageUpdate, ParseFailure>(e)
                                &&& forall|i: int|
                                    0 <= i < k ==> (#[trigger] row_spec(p, tail[i])) is Ok
                            };
                        assert(rows[k + 1] == tail[k]);
                        assert forall|i: int| 0 <= i < k + 1 implies (#[trigger] row_spec(
                            p,
                            rows[i],
                        )) is Ok by {
                            if i > 0 {
                                assert(rows[i] == tail[i - 1]);
                            }
                        }
                    },
                }
            },
        }
    }
}

/// Every column of a package read from a row is trimmed.
pub proof fn lemma_columns_trimmed(p: Positions, row: Seq<char>)
    ensures
        row_spec(p, row) matches Ok(u) ==> {
            &&& is_trimmed(u.name)
            &&& is_trimmed(u.id)
            &&& is_trimmed(u.version)
            &&& is_trimmed(u.available)
        },
{
    lemma_trim_is_trimmed(byte_range(row, p.name_offset as int, p.id_offset as int));
    lemma_trim_is_trimmed(byte_range(row, p.id_offset as int, p.version_offset as int));
    lemma_trim_is_trimmed(byte_range(row, p.version_offset as int, p.available_offset as int));
    lemma_trim_is_trimmed(byte_range(row, p.available_offset as int, p.source_offset as int));
}

/// Reading a source's printed name gives that source back, and only the two
/// printed names are read as sources.
pub proof fn lemma_source_round_trip(source: PackageSource, t: Seq<char>)
    ensures
        source_named(source_text(source)) == Some(source),
        source_named(t) == Some(source) ==> t == source_text(source),
{
    reveal_strlit("winget");
    reveal_strlit("msstore");
    assert("winget"@ != "msstore"@) by {
        assert("winget"@.len() != "msstore"@.len());
    }
}


/// Whatever follows the line that ends the table is never read: a text whose
/// last line (after the header and separator) is an end row parses the same
/// with any text appended.
pub proof fn lemma_text_after_end_row_ignored(t: Seq<char>, u: Seq<char>)
    requires
        t.len() > 0,
        t.last() == '\n',
        lines_of(t).len() >= 3,
        end_row(lines_of(t).last()),
    ensures
        parse_spec(t + u) == parse_spec(t),
{
    lemma_lines_append(t, u);
    let l = lines_of(t);
    let m = lines_of(t + u);
    assert(m[0] == l[0]);
    let k = l.len() - 3;
    let rows_t = l.subrange(2, l.len() as int);
    let rows_m = m.subrange(2, m.len() as int);
    assert(rows_t[k] == l.last());
    assert(rows_m[k] == l.last());
    if let Some(p) = header_positions(lowercase(l[0])) {
        lemma_end_row_stops(p, rows_t, k);
        lemma_end_row_stops(p, rows_m, k);
        assert(rows_t.take(k) =~= rows_m.take(k));
    }
}


proof fn lemma_end_row_strip_cr(row: Seq<char>)
    requires
        end_row(row),
    ensures
        end_row(strip_cr(row)),
{
    if row.len() > 0 && row.last() == '\r' {
        reveal_strlit("upgrades available");
        let pat = "upgrades available"@;
        assert(pat.last() == 'e');
        lemma_contains_without_last(row, pat);
    }
}

/// Nothing after the summary line is read: when some line of `s` from the
/// third on ends the table, `s` followed by a line feed and any text parses
/// as `s` does.
pub proof fn lemma_text_after_summary_ignored(s: Seq<char>, t: Seq<char>, k: int)
    requires
        2 <= k < lines_of(s).len(),
        end_row(lines_of(s)[k]),
    ensures
        parse_spec(s + seq!['\n'] + t) == parse_spec(s),
{
    lemma_lines_after_line_feed(s, t);
    let l = lines_of(s);
    let m = lines_of(s + seq!['\n'] + t);
    lemma_end_row_strip_cr(l[k]);
    assert(end_row(m[k]));
    assert(m[0] == l[0]);
    let rows_l = l.subrange(2, l.len() as int);
    let rows_m = m.subrange(2, m.len() as int);
    assert(rows_l[k - 2] == l[k]);
    assert(rows_m[k - 2] == m[k]);
    if let Some(p) = header_positions(lowercase(l[0])) {
        lemma_end_row_stops(p, rows_l, k - 2);
        lemma_end_row_stops(p, rows_m, k - 2);
        assert forall|j: int| 0 <= j < k - 2 implies rows_l[j] == rows_m[j] by {
            assert(rows_l[j] == l[j + 2]);
            assert(rows_m[j] == m[j + 2]);
        }
        assert(rows_l.take(k - 2) =~= rows_m.take(k - 2));
    }
}

/// The line after the header is never read: any two such lines give the
/// same result.
pub proof fn lemma_separator_unread(h: Seq<char>, x: Seq<char>, y: Seq<char>, rest: Seq<char>)
    requires
        forall|i: int| 0 <= i < h.len() ==> h[i] != '\n',
        forall|i: int| 0 <= i < x.len() ==> x[i] != '\n',
        forall|i: int| 0 <= i < y.len() ==> y[i] != '\n',
    ensures
        parse_spec(h + seq!['\n'] + x + seq!['\n'] + rest) == parse_spec(
            h + seq!['\n'] + y + seq!['\n'] + rest,
        ),
{
    lemma_lines_two_then(h, x, rest);
    lemma_lines_two_then(h, y, rest);
    let lx = lines_of(h + seq!['\n'] + x + seq!['\n'] + rest);
    let ly = lines_of(h + seq!['\n'] + y + seq!['\n'] + rest);
    assert(lx.subrange(2, lx.len() as int) =~= lines_of(rest));
    assert(ly.subrange(2, ly.len() as int) =~= lines_of(rest));
    assert(lx[0] == ly[0]);
}


proof fn lemma_column_names_ascii()
    ensures
        is_ascii_chars("name"@),
        is_ascii_chars("id"@),
        is_ascii_chars("version"@),
        is_ascii_chars("available"@),
        is_ascii_chars("source"@),
{
    reveal_strlit("name");
    reveal_strlit("id");
    reveal_strlit("version");
    reveal_strlit("available");
    reveal_strlit("source");
}

/// The column names are matched in any case: an ASCII header has column
/// offsets exactly when each of "name", "id", "version", "available" and
/// "source" occurs in it, spelled in any mix of upper and lower case, and each
/// offset is where its name first occurs so spelled (for ASCII text a
/// character position is also a byte position).
pub proof fn lemma_header_columns_any_case(h: Seq<char>)
    requires
        is_ascii_chars(h),
        h.len() <= usize::MAX,
    ensures
        ({
            let l = ascii_lowercase(h);
            &&& l.len() == h.len()
            &&& (header_positions(l) is Some <==> {
                &&& exists|k: int| occurs_at(l, "name"@, k)
                &&& exists|k: int| occurs_at(l, "id"@, k)
                &&& exists|k: int| occurs_at(l, "version"@, k)
                &&& exists|k: int| occurs_at(l, "available"@, k)
                &&& exists|k: int| occurs_at(l, "source"@, k)
            })
            &&& (header_positions(l) matches Some(p) ==> {
                &&& first_occurrence(l, "name"@, p.name_offset as int)
                &&& first_occurrence(l, "id"@, p.id_offset as int)
                &&& first_occurrence(l, "version"@, p.version_offset as int)
                &&& first_occurrence(l, "available"@, p.available_offset as int)
                &&& first_occurrence(l, "source"@, p.source_offset as int)
            })
        }),
{
    let l = ascii_lowercase(h);
    lemma_ascii_lowercase_bytes(h);
    lemma_column_names_ascii();
    lemma_ascii_find(l, "name"@);
    lemma_ascii_find(l, "id"@);
    lemma_ascii_find(l, "version"@);
    lemma_ascii_find(l, "available"@);
    lemma_ascii_find(l, "source"@);
}

} // verus!
