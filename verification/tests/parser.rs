use winget_automation::error::ParseWingetError;
use winget_automation::parser::is_end_row;
use winget_automation::parser::parse_positions_from_header;
use winget_automation::parser::parse_row;
use winget_automation::parser::parse_rows;
use winget_automation::parser::parse_winget_raw;
use winget_automation::parser::positions_in_lowercase;
use winget_automation::parser::PackageSource;
use winget_automation::parser::Positions;

const SAMPLE: &str = "\
Name                                                        Id                               Version        Available     Source
---------------------------------------------------------------------------------------------------------------------------------
7-Zip 26.01 (x64)                                           7zip.7zip                        26.01          26.02         winget
AWS Command Line Interface v2                               Amazon.AWSCLI                    2.35.9.0       2.35.15       winget
AWS SAM Command Line Interface                              Amazon.SAM-CLI                   1.158.0        1.163.0       winget
balenaEtcher                                                Balena.Etcher                    2.1.4          2.1.6         winget
Oh My Posh                                                  XP8K0HKJFRXGCK                   29.17.0        29.20.0       msstore
20 upgrades available.";

#[test]
fn test_parse_positions_from_header() {
    let header = "Name                                                        Id                               Version        Available     Source";
    let pos = parse_positions_from_header(header).expect("should find positions");
    assert_eq!(pos.name_offset, 0);
    assert!(pos.id_offset > pos.name_offset);
    assert!(pos.version_offset > pos.id_offset);
    assert!(pos.available_offset > pos.version_offset);
    assert!(pos.source_offset > pos.available_offset);
}

#[test]
fn test_parse_positions_empty() {
    assert!(parse_positions_from_header("").is_none());
    assert!(parse_positions_from_header("garbage line").is_none());
}

#[test]
fn test_is_end_row() {
    assert!(is_end_row("20 upgrades available."));
    assert!(is_end_row("1 upgrades available."));
    assert!(!is_end_row(
        "7-Zip 26.01 (x64)  7zip.7zip  26.01  26.02  winget"
    ));
}

#[test]
fn test_package_source_try_from() {
    assert_eq!(
        PackageSource::try_from("winget".to_string()),
        Ok(PackageSource::WinGet)
    );
    assert_eq!(
        PackageSource::try_from("msstore".to_string()),
        Ok(PackageSource::MsStore)
    );
    assert!(PackageSource::try_from("unknown".to_string()).is_err());
}

#[test]
fn test_parse_winget_raw_empty() {
    let result = parse_winget_raw("").unwrap();
    assert!(result.is_empty());
}

#[test]
fn test_parse_winget_raw_full_sample() {
    let result = parse_winget_raw(SAMPLE).unwrap();
    assert_eq!(result.len(), 5);

    assert_eq!(result[0].name, "7-Zip 26.01 (x64)");
    assert_eq!(result[0].id, "7zip.7zip");
    assert_eq!(result[0].version, "26.01");
    assert_eq!(result[0].available, "26.02");
    assert_eq!(result[0].source, PackageSource::WinGet);

    assert_eq!(result[4].name, "Oh My Posh");
    assert_eq!(result[4].id, "XP8K0HKJFRXGCK");
    assert_eq!(result[4].source, PackageSource::MsStore);
}

#[test]
fn test_parse_winget_raw_missing_header() {
    // A line that exists but lacks the required column names
    let input = "garbage\n---\nsome row\n";
    let result = parse_winget_raw(input);
    assert!(matches!(result, Err(ParseWingetError::HeaderParseFailed)));
}

#[test]
fn test_parse_winget_raw_bad_source() {
    let input = "\
Name                                                        Id                               Version        Available     Source
---------------------------------------------------------------------------------------------------------------------------------
7-Zip 26.01 (x64)                                           7zip.7zip                        26.01          26.02         badvalue
1 upgrades available.";
    let result = parse_winget_raw(input);
    assert!(matches!(result, Err(ParseWingetError::InvalidSource(_))));
}

// Further cases.

const HEADER: &str = "Name      Id        Version   Available Source";

#[test]
fn header_offsets_are_byte_positions_of_the_column_names() {
    let pos = parse_positions_from_header(HEADER).unwrap();
    assert_eq!(pos.name_offset, 0);
    assert_eq!(pos.id_offset, 10);
    assert_eq!(pos.version_offset, 20);
    assert_eq!(pos.available_offset, 30);
    assert_eq!(pos.source_offset, 40);
}

#[test]
fn header_is_matched_without_regard_to_case() {
    // Only a lower-cased header contains "name", "id", ...; the call that
    // lower-cases it must not hand its argument back unchanged.
    let pos = parse_positions_from_header("NAME      ID        VERSION   AVAILABLE SOURCE").unwrap();
    assert_eq!(pos.id_offset, 10);
    assert_eq!(pos.source_offset, 40);
    assert!(positions_in_lowercase("NAME      ID        VERSION   AVAILABLE SOURCE").is_none());
}

#[test]
fn header_uses_first_occurrence() {
    // "id" first occurs inside "Valid"; the offsets follow the text, not the words.
    let pos = parse_positions_from_header("Valid Name Version Available Source").unwrap();
    assert_eq!(pos.id_offset, 3);
    assert_eq!(pos.name_offset, 6);
}

#[test]
fn header_missing_one_column_fails() {
    assert!(parse_positions_from_header("Name Id Version Available").is_none());
}

#[test]
fn end_row_needs_the_whole_phrase() {
    assert!(!is_end_row("upgrades"));
    assert!(is_end_row("no upgrades available here"));
    assert!(!is_end_row(""));
}

#[test]
fn lines_after_the_summary_are_ignored() {
    let input = format!(
        "{HEADER}\n----\nA         a.a       1         2         winget\n1 upgrades available.\nB         b.b       1         2         bogus\n"
    );
    let result = parse_winget_raw(&input).unwrap();
    let truncated = format!(
        "{HEADER}\n----\nA         a.a       1         2         winget\n1 upgrades available.\n"
    );
    assert_eq!(parse_winget_raw(&truncated).unwrap(), result);
    assert_eq!(result.len(), 1);
    assert_eq!(result[0].name, "A");
    assert_eq!(result[0].id, "a.a");
    assert_eq!(result[0].version, "1");
    assert_eq!(result[0].available, "2");
}

#[test]
fn crlf_line_endings_are_stripped() {
    let input = format!(
        "{HEADER}\r\n----\r\nA         a.a       1         2         msstore\r\n"
    );
    let result = parse_winget_raw(&input).unwrap();
    assert_eq!(result.len(), 1);
    assert_eq!(result[0].source, PackageSource::MsStore);
}

#[test]
fn header_only_gives_no_rows() {
    assert!(parse_winget_raw(HEADER).unwrap().is_empty());
    assert!(parse_winget_raw(&format!("{HEADER}\n----")).unwrap().is_empty());
}

#[test]
fn without_summary_every_row_is_read() {
    let input = format!(
        "{HEADER}\n----\nA         a         1         2         winget\nB         b         3         4         winget"
    );
    let result = parse_winget_raw(&input).unwrap();
    assert_eq!(result.len(), 2);
    assert_eq!(result[1].name, "B");
    assert_eq!(result[1].available, "4");
}

#[test]
fn short_row_has_empty_columns_and_fails_on_source() {
    let pos = parse_positions_from_header(HEADER).unwrap();
    match parse_row(&pos, "Tiny") {
        Err(ParseWingetError::InvalidSource(e)) => assert_eq!(e.input, ""),
        other => panic!("unexpected {:?}", other),
    }
}

#[test]
fn offsets_inside_a_multibyte_character_give_empty_columns() {
    // 'é' takes two bytes, so byte 10 falls inside "Cafééééééé" and the
    // Name and Id slices that end or start there are not valid.
    let pos = Positions {
        name_offset: 0,
        id_offset: 10,
        version_offset: 21,
        available_offset: 31,
        source_offset: 41,
    };
    let row = "Cafééééééé a.a       1         2         winget";
    let u = parse_row(&pos, row).unwrap();
    assert_eq!(u.name, "");
    assert_eq!(u.id, "");
    assert_eq!(u.source, PackageSource::WinGet);
}

#[test]
fn columns_are_trimmed_of_unicode_whitespace() {
    let pos = parse_positions_from_header(HEADER).unwrap();
    // U+3000 (ideographic space) is three bytes; the name column holds "\u{3000}X\u{3000}   ".
    let row = "\u{3000}X\u{3000}   a         1         2         winget";
    let u = parse_row(&pos, row).unwrap();
    assert_eq!(u.name, "X");
}

#[test]
fn rows_stop_at_the_sentinel() {
    let pos = parse_positions_from_header(HEADER).unwrap();
    let rows = [
        "A         a         1         2         winget",
        "3 upgrades available.",
        "junk",
    ];
    let v = parse_rows(&pos, &rows).unwrap();
    assert_eq!(v.len(), 1);
    let w = parse_rows(&pos, &rows[..1]).unwrap();
    assert_eq!(v, w);
}

#[test]
fn first_bad_row_decides_the_error() {
    let pos = parse_positions_from_header(HEADER).unwrap();
    let rows = [
        "A         a         1         2         winget",
        "B         b         1         2         first",
        "C         c         1         2         second",
    ];
    match parse_rows(&pos, &rows) {
        Err(ParseWingetError::InvalidSource(e)) => assert_eq!(e.input, "first"),
        other => panic!("unexpected {:?}", other),
    }
}

#[test]
fn source_name_round_trips() {
    for s in [PackageSource::WinGet, PackageSource::MsStore] {
        assert_eq!(PackageSource::try_from(s.as_str().to_string()), Ok(s));
    }
    assert_eq!(PackageSource::WinGet.as_str(), "winget");
    assert_eq!(PackageSource::MsStore.as_str(), "msstore");
    let err = PackageSource::try_from("WinGet".to_string()).unwrap_err();
    assert_eq!(err.input, "WinGet");
}

#[test]
fn separator_line_is_never_read() {
    let rest = "A         a         1         2         winget\n";
    let with_dashes = parse_winget_raw(&format!("{HEADER}\n----------\n{rest}")).unwrap();
    let with_row = parse_winget_raw(&format!("{HEADER}\nZ         z         9         9         bogus\n{rest}")).unwrap();
    let with_summary = parse_winget_raw(&format!("{HEADER}\n5 upgrades available.\n{rest}")).unwrap();
    assert_eq!(with_dashes.len(), 1);
    assert_eq!(with_dashes, with_row);
    assert_eq!(with_dashes, with_summary);
}

#[test]
fn text_appended_after_a_summary_line_is_ignored() {
    let s = format!("{HEADER}\r\n----\r\nA         a         1         2         winget\r\n1 upgrades available.\r");
    let base = parse_winget_raw(&s).unwrap();
    let extended = parse_winget_raw(&format!("{s}\nB         b         1         2         bogus")).unwrap();
    assert_eq!(base.len(), 1);
    assert_eq!(base, extended);
}
