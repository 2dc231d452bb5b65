use colored::{ColoredString, Colorize};
use iai_callgrind_runner::report::{
    bench_title, change_note, parenthesized, percentage_diff, short_precision, title, Percentage,
    Row,
};
use iai_callgrind_runner::stats::CallgrindStats;
use iai_callgrind_runner::style::Style;

fn percentage(text: &str, positive: bool) -> Percentage {
    Percentage { text: text.to_string(), positive }
}

// One test for all that is shown, as whether to color is a setting of the whole process.
#[test]
fn shown_text() {
    let row = Row { label: "  L2 Hits:          ".to_string(), value: 20, old: Some(20) };

    colored::control::set_override(false);
    assert_eq!(bench_title("m", "f"), "m::f");
    assert_eq!(percentage_diff(0, 0, &percentage("NaN", true)), " (No Change)");
    assert_eq!(percentage_diff(5, 5, &percentage("+1", true)), " (No Change)");
    assert_eq!(percentage_diff(6, 5, &percentage("+20.00000", true)), " (+20.00000%)");
    assert_eq!(percentage_diff(4, 5, &percentage("-20.00000", false)), " (-20.00000%)");
    assert_eq!(percentage_diff(4, 0, &percentage("+inf", true)), " (  +inf%)");
    assert_eq!(
        row.line(&percentage("", false)),
        "  L2 Hits:                       20 (No Change)"
    );

    colored::control::set_override(true);
    assert_eq!(bench_title("m", "f"), "\x1b[32mm::f\x1b[0m");
    assert_eq!(
        bench_title("a\x1b[0mb\x1b[0", "\x1b[0m\x1b[0m"),
        "\x1b[32ma\x1b[0m\x1b[32mb\x1b[0::\x1b[0m\x1b[32m\x1b[0m\x1b[32m\x1b[0m"
    );
    assert_eq!(
        percentage_diff(5, 5, &percentage("+1", true)),
        " (\x1b[90mNo Change\x1b[0m)"
    );
    assert_eq!(
        percentage_diff(6, 5, &percentage("+20.00000", true)),
        " (\x1b[1;91m+20.00000%\x1b[0m)"
    );
    assert_eq!(
        percentage_diff(4, 5, &percentage("-20.00000", false)),
        " (\x1b[1;92m-20.00000%\x1b[0m)"
    );
    assert_eq!(
        row.line(&percentage("", false)),
        "  L2 Hits:          \x1b[1m             20\x1b[0m (\x1b[90mNo Change\x1b[0m)"
    );

    for colors in [false, true] {
        colored::control::set_override(colors);
        let mut row = Row { label: "  RAM Hits:         ".to_string(), value: 1234, old: None };
        assert_eq!(
            row.line(&percentage("", true)),
            format!("  RAM Hits:         {:>15}{}", "1234".bold(), String::new().normal())
        );
        row.old = Some(1000);
        let note = format!("{:>+6}%", "+23.40000".to_string()).bright_red().bold();
        let note = ColoredString::from(format!(" ({})", note).as_str());
        assert_eq!(
            row.line(&percentage("+23.40000", true)),
            format!("  RAM Hits:         {:>15}{}", "1234".bold(), note)
        );
    }
}

#[test]
fn styled_texts() {
    let name = title("m", "f");
    assert_eq!((name.text.as_str(), name.style), ("m::f", Style::Green));
    let row = Row { label: "label ".to_string(), value: 1234, old: None };
    assert_eq!(row.assembled("\x1b[1m1\x1b[0m", " (2)"), "label \x1b[1m1\x1b[0m (2)");
    let number = row.number();
    assert_eq!((number.text.as_str(), number.style), ("           1234", Style::Bold));
    assert_eq!(parenthesized("\x1b[90mNo Change\x1b[0m"), " (\x1b[90mNo Change\x1b[0m)");
    for (new, old, text, positive, expected, style) in [
        (5, 5, "+1", true, "No Change", Style::BrightBlack),
        (0, 0, "NaN", false, "No Change", Style::BrightBlack),
        (6, 5, "+20.00000", true, "+20.00000%", Style::BoldBrightRed),
        (4, 5, "-20.00000", false, "-20.00000%", Style::BoldBrightGreen),
        (1, 0, "+inf", true, "  +inf%", Style::BoldBrightRed),
    ] {
        let note = change_note(new, old, &percentage(text, positive));
        assert_eq!((note.text.as_str(), note.style), (expected, style));
    }
}

#[test]
fn rows_of_results() {
    let stats = CallgrindStats::from_counters(&[6808, 599, 469, 75, 37, 18, 70, 30, 10]);
    let old = CallgrindStats::from_counters(&[6, 2, 1, 1, 1, 0, 1, 0, 0]);
    let rows = stats.rows(Some(old));
    let expected = [
        ("  Instructions:     ", 6808, 6),
        ("  L1 Data Hits:     ", 938, 1),
        ("  L2 Hits:          ", 20, 1),
        ("  RAM Hits:         ", 110, 1),
        ("  Total read+write: ", 7876, 9),
        ("  Estimated Cycles: ", 11696, 47),
    ];
    assert_eq!(rows.len(), expected.len());
    for (row, (label, value, old)) in rows.iter().zip(expected) {
        assert_eq!(row.label, label);
        assert_eq!(row.value, value);
        assert_eq!(row.old, Some(old));
    }
    for (row, (label, value, _)) in stats.rows(None).iter().zip(expected) {
        assert_eq!(row.label, label);
        assert_eq!(row.value, value);
        assert_eq!(row.old, None);
    }
}

#[test]
fn precision_of_percentages() {
    for (value, expected) in [
        (0.0, "+0.000000"),
        (9.5, "+9.500000"),
        (-10.0, "-10.00000"),
        (100.0, "+100.0000"),
        (1000.0, "+1000.000"),
        (10000.0, "+10000.00"),
        (100000.0, "+100000.0"),
        (999999.5, "+999999.5"),
        (1000000.0, "+1000000"),
        (1e30, "+1000000000000000019884624838656"),
        (f64::INFINITY, "+inf"),
    ] {
        let value: f64 = value;
        let decimals = short_precision(value.abs() as u64);
        assert_eq!(format!("{:+.*}", decimals, value), expected);
    }
    assert_eq!(short_precision(u64::MAX), 0);
}
