use listdisk_rs::win32::drive_info::{
    diskindex_from_output, diskindex_from_text, driveletter_query, parse_index, trim_whitespace,
    win32_path_query, Error, ParseFailure,
};
use listdisk_rs::win32::freespace::{FreeSpace, SpaceReply};
use listdisk_rs::win32::logical_drives::get_logical_driveletters;
use listdisk_rs::win32::volume::decode_volume_name;

#[test]
fn driveletter_query_runs_the_partition_script() {
    let call = driveletter_query('C');
    assert_eq!(call.program, "powershell.exe");
    assert_eq!(call.switch, "-command");
    assert_eq!(call.script, "(Get-Partition -DriveLetter C).DiskNumber");
    assert_eq!(driveletter_query('x').script, "(Get-Partition -DriveLetter x).DiskNumber");
}

#[test]
fn win32_path_query_quotes_the_path() {
    let call = win32_path_query("\\\\?\\Volume{0a1b2c3d-0000-0000-0000-100000000000}\\");
    assert_eq!(call.program, "powershell.exe");
    assert_eq!(call.switch, "-command");
    assert_eq!(
        call.script,
        "(Get-Partition -volume (Get-Volume -Path \"\\\\?\\Volume{0a1b2c3d-0000-0000-0000-100000000000}\\\")).DiskNumber"
    );
    assert_eq!(
        win32_path_query("").script,
        "(Get-Partition -volume (Get-Volume -Path \"\")).DiskNumber"
    );
}

#[test]
fn win32_path_query_embeds_the_path_as_it_is() {
    let path = "a\"; $(x) `b` 'c' | d & e";
    assert_eq!(
        win32_path_query(path).script,
        format!("(Get-Partition -volume (Get-Volume -Path \"{}\")).DiskNumber", path)
    );
    assert_eq!(
        win32_path_query("caf\u{e9}").script,
        "(Get-Partition -volume (Get-Volume -Path \"caf\u{e9}\")).DiskNumber"
    );
}

#[test]
fn output_with_a_number_is_the_index() {
    assert!(matches!(diskindex_from_output(Ok(b"0\r\n".to_vec())), Ok(0)));
    assert!(matches!(diskindex_from_output(Ok(b"1".to_vec())), Ok(1)));
    assert!(matches!(diskindex_from_output(Ok(b"  12\n".to_vec())), Ok(12)));
    assert!(matches!(diskindex_from_output(Ok(b"\t+7 \r\n".to_vec())), Ok(7)));
    assert!(matches!(diskindex_from_output(Ok(b"007".to_vec())), Ok(7)));
}

#[test]
fn empty_output_has_its_own_error() {
    assert!(matches!(diskindex_from_output(Ok(Vec::new())), Err(Error::EmptyOutput)));
    assert!(matches!(diskindex_from_output(Ok(b"\r\n".to_vec())), Err(Error::EmptyOutput)));
    assert!(matches!(diskindex_from_output(Ok(b" \t \n".to_vec())), Err(Error::EmptyOutput)));
    assert!(matches!(
        diskindex_from_output(Ok("\u{a0}\u{2003}\u{3000}".as_bytes().to_vec())),
        Err(Error::EmptyOutput)
    ));
}

#[test]
fn output_that_is_no_number_is_a_parse_error() {
    assert!(matches!(
        diskindex_from_output(Ok(b"Get-Partition : No MSFT_Partition objects found\r\n".to_vec())),
        Err(Error::ParseError(ParseFailure::InvalidDigit))
    ));
    assert!(matches!(
        diskindex_from_output(Ok(b"0\r\n1\r\n".to_vec())),
        Err(Error::ParseError(ParseFailure::InvalidDigit))
    ));
    assert!(matches!(
        diskindex_from_output(Ok(b"-1".to_vec())),
        Err(Error::ParseError(ParseFailure::InvalidDigit))
    ));
    assert!(matches!(
        diskindex_from_output(Ok(b"+".to_vec())),
        Err(Error::ParseError(ParseFailure::InvalidDigit))
    ));
    assert!(matches!(
        diskindex_from_output(Ok(b"99999999999999999999999999".to_vec())),
        Err(Error::ParseError(ParseFailure::Overflow))
    ));
}

#[test]
fn output_that_is_no_utf8_is_an_encoding_error() {
    assert!(matches!(diskindex_from_output(Ok(vec![0x30, 0xff, 0x0a])), Err(Error::UTF8Error(_))));
    assert!(matches!(diskindex_from_output(Ok(vec![0xc3])), Err(Error::UTF8Error(_))));
    assert!(matches!(diskindex_from_output(Ok(vec![0xff, 0xfe, 0x30, 0x00])), Err(Error::UTF8Error(_))));
}

#[test]
fn shell_that_did_not_run_is_an_io_error() {
    let failure = std::io::Error::new(std::io::ErrorKind::NotFound, "no shell");
    match diskindex_from_output(Err(failure)) {
        Err(Error::IOError(e)) => {
            assert_eq!(e.kind(), std::io::ErrorKind::NotFound);
            assert_eq!(e.to_string(), "no shell");
        }
        other => panic!("not an I/O error: {:?}", other),
    }
}

#[test]
fn text_output_is_read_like_bytes() {
    assert!(matches!(diskindex_from_text("3\r\n"), Ok(3)));
    assert!(matches!(diskindex_from_text(""), Err(Error::EmptyOutput)));
    assert!(matches!(diskindex_from_text("  "), Err(Error::EmptyOutput)));
    assert!(matches!(diskindex_from_text("disk 3"), Err(Error::ParseError(ParseFailure::InvalidDigit))));
    assert!(matches!(diskindex_from_text("3 4"), Err(Error::ParseError(ParseFailure::InvalidDigit))));
}

#[test]
fn trimming_agrees_with_the_standard_library() {
    let samples = [
        "",
        " ",
        "0",
        "  0  ",
        "\r\n12\r\n",
        "\t\u{b}\u{c}x y\u{85}\u{a0}",
        "\u{1680}\u{2000}\u{200a}a\u{2028}\u{2029}\u{202f}\u{205f}\u{3000}",
        "\u{200b}a\u{200b}",
        "\u{feff}1",
        "\u{1c}1\u{1f}",
        " caf\u{e9} \u{1f4be} ",
        "\0 1 \0",
    ];
    for sample in samples {
        assert_eq!(trim_whitespace(sample), sample.trim());
    }
}

#[test]
fn trimming_takes_white_space_from_both_ends_only() {
    assert_eq!(trim_whitespace("  a b  "), "a b");
    assert_eq!(trim_whitespace("a"), "a");
    assert_eq!(trim_whitespace("\n\n"), "");
}

#[test]
fn parsing_reads_decimal_digits() {
    assert_eq!(parse_index("0"), Ok(0));
    assert_eq!(parse_index("42"), Ok(42));
    assert_eq!(parse_index("+42"), Ok(42));
    assert_eq!(parse_index("000123"), Ok(123));
    assert_eq!(parse_index(&usize::MAX.to_string()), Ok(usize::MAX));
}

#[test]
fn parsing_turns_down_what_is_no_number() {
    assert_eq!(parse_index(""), Err(ParseFailure::Empty));
    for text in ["+", "-", "-0", "++1", "1+", "1 ", " 1", "0x10", "1_000", "1.0", "1e3", "\u{661}", "\u{ff11}", "12a", "a12"] {
        assert_eq!(parse_index(text), Err(ParseFailure::InvalidDigit));
    }
}

#[test]
fn parsing_turns_down_what_does_not_fit() {
    let max = usize::MAX.to_string();
    let mut above = max.clone();
    above.push('0');
    assert_eq!(parse_index(&above), Err(ParseFailure::Overflow));
    let next = (usize::MAX as u128 + 1).to_string();
    assert_eq!(parse_index(&next), Err(ParseFailure::Overflow));
    assert_eq!(parse_index("340282366920938463463374607431768211456"), Err(ParseFailure::Overflow));
}

#[test]
fn parsing_reports_what_goes_wrong_first() {
    assert_eq!(parse_index("99999999999999999999999999999999999999999x"), Err(ParseFailure::Overflow));
    assert_eq!(parse_index("x99999999999999999999999999999999999999999"), Err(ParseFailure::InvalidDigit));
    assert_eq!(parse_index("12x99999999999999999999999999999999999999999"), Err(ParseFailure::InvalidDigit));
    let mut text = usize::MAX.to_string();
    text.push('x');
    assert_eq!(parse_index(&text), Err(ParseFailure::InvalidDigit));
    text.pop();
    text.push_str("0x");
    assert_eq!(parse_index(&text), Err(ParseFailure::Overflow));
}

fn like_std(text: &str) -> Result<usize, ParseFailure> {
    match text.parse::<usize>() {
        Ok(n) => Ok(n),
        Err(e) => match e.kind() {
            std::num::IntErrorKind::Empty => Err(ParseFailure::Empty),
            std::num::IntErrorKind::PosOverflow => Err(ParseFailure::Overflow),
            _ => Err(ParseFailure::InvalidDigit),
        },
    }
}

#[test]
fn parsing_fails_as_the_standard_library_does() {
    let max = usize::MAX.to_string();
    let samples = [
        String::new(),
        String::from("+"),
        String::from("-"),
        String::from("-1"),
        String::from("+0"),
        String::from("++0"),
        String::from("0"),
        String::from("12 "),
        String::from(" 12"),
        String::from("1x"),
        String::from("x1"),
        String::from("\u{661}"),
        max.clone(),
        format!("{}0", max),
        format!("{}x", max),
        format!("{}0x", max),
        format!("x{}0", max),
        format!("+{}", max),
        format!("+{}9", max),
        format!("000000000000000000000000000000{}", max),
        String::from("99999999999999999999999999999999999999999x"),
        String::from("9999999999999999999999999999999999999999\u{e9}9"),
    ];
    for sample in samples.iter() {
        assert_eq!(parse_index(sample), like_std(sample));
    }
}

#[test]
fn parsing_agrees_with_the_standard_library_on_success() {
    for text in ["0", "1", "+1", "10", "0010", "65535", "4294967295", "-1", "", "+", "1a", " 1", "18446744073709551615", "18446744073709551616"] {
        assert_eq!(parse_index(text).ok(), text.parse::<usize>().ok());
    }
}

#[test]
fn drive_c_on_disk_zero() {
    let letters = get_logical_driveletters(0b100);
    assert_eq!(letters, vec!['C']);
    assert_eq!(driveletter_query(letters[0]).script, "(Get-Partition -DriveLetter C).DiskNumber");
    let index = diskindex_from_output(Ok(b"0\r\n".to_vec())).unwrap();
    assert_eq!(index, 0);
    let disks = [(1usize, "second"), (0usize, "first")];
    let disk = disks.iter().find(|(number, _)| *number == index).unwrap();
    assert_eq!(disk.1, "first");
    assert_eq!(FreeSpace::try_from_drive(letters[0]), Some(b"C:/\0".to_vec()));
    let reply = SpaceReply {
        status: 1,
        bytes_for_caller: 120_000_000_000,
        total_bytes: 512_000_000_000,
        total_free_bytes: 120_000_000_000,
    };
    let space = FreeSpace::from_reply(&reply).unwrap();
    assert!(space.bytes_for_caller <= space.total_bytes);
    assert!(space.total_free_bytes <= space.total_bytes);
}

#[test]
fn enumerated_volume_is_asked_for_by_its_path() {
    let text = "\\\\?\\Volume{0a1b2c3d-0000-0000-0000-100000000000}\\";
    let mut name: Vec<u16> = text.encode_utf16().collect();
    name.resize(64, 0);
    let path = decode_volume_name(&name).unwrap();
    let call = win32_path_query(&path);
    assert_eq!(
        call.script,
        "(Get-Partition -volume (Get-Volume -Path \"\\\\?\\Volume{0a1b2c3d-0000-0000-0000-100000000000}\\\")).DiskNumber"
    );
    assert!(matches!(diskindex_from_output(Ok(b"2\r\n".to_vec())), Ok(2)));
    assert!(matches!(diskindex_from_output(Ok(b"\r\n".to_vec())), Err(Error::EmptyOutput)));
}

#[test]
fn white_space_is_what_the_standard_library_calls_so() {
    for code in 0u32..=0x10ffff {
        if let Some(c) = char::from_u32(code) {
            let mut text = String::new();
            text.push(c);
            assert_eq!(trim_whitespace(&text).is_empty(), c.is_whitespace());
        }
    }
}

#[test]
fn parsing_agrees_with_the_standard_library_on_numbers() {
    let mut n: usize = 0;
    for step in 0..2000usize {
        let text = n.to_string();
        assert_eq!(parse_index(&text), Ok(n));
        assert_eq!(parse_index(&format!("+{}", text)), Ok(n));
        assert_eq!(parse_index(&format!("0{}", text)), Ok(n));
        n = n.wrapping_mul(31).wrapping_add(step + 1);
    }
}
