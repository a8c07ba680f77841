use laminaria_run::nim_telemetry::{classify_hint_line, lines_compiled, peak_mem_field, HintLine};

fn whole_bytes(line: &str) -> Option<u64> {
    let (number, multiplier) = peak_mem_field(line)?;
    Some(number.parse::<u64>().ok()? * multiplier)
}

#[test]
fn peak_mem_parses_kib_and_gib_units_too() {
    assert_eq!(
        whole_bytes("10 lines; 0.1s; 512KiB peakmem; proj: x; out: y [SuccessX]"),
        Some(512 * 1024)
    );
    assert_eq!(
        whole_bytes("10 lines; 0.1s; 2GiB peakmem; proj: x; out: y [SuccessX]"),
        Some(2 * 1024 * 1024 * 1024)
    );
}

#[test]
fn peak_mem_field_splits_number_and_unit() {
    assert_eq!(
        peak_mem_field("29436 lines; 0.343s; 38.184MiB peakmem; proj: /x; out: /y [SuccessX]"),
        Some(("38.184".to_string(), 1024 * 1024))
    );
    assert_eq!(peak_mem_field("12B peakmem"), Some(("12".to_string(), 1)));
    assert_eq!(peak_mem_field("no memory here"), None);
    assert_eq!(peak_mem_field("1; 7TiX peakmem"), None);
}

#[test]
fn a_real_hint_stream_classifies_line_by_line() {
    let lines = [
        "Hint: used config file '/usr/local/Cellar/nim/2.2.10/nim/config/nim.cfg' [Conf]",
        "........................................................................",
        "CC: system/exceptions.nim",
        "Hint:  [Link]",
        "Hint: mm: orc; threads: on; opt: none (DEBUG BUILD, `-d:release` generates faster code)",
        "29436 lines; 0.343s; 38.184MiB peakmem; proj: /x/fixture.nim; out: /x/fixture_out [SuccessX]",
        "   ",
        "some totally unexpected line",
    ];
    let kinds: Vec<HintLine> = lines.iter().map(|l| classify_hint_line(l)).collect();
    assert_eq!(kinds[0], HintLine::Known);
    assert_eq!(kinds[1], HintLine::Known);
    assert_eq!(kinds[2], HintLine::Module("system/exceptions.nim".to_string()));
    assert_eq!(kinds[3], HintLine::Link);
    assert_eq!(kinds[4], HintLine::Known);
    assert!(matches!(kinds[5], HintLine::Summary(_)));
    assert_eq!(kinds[6], HintLine::Blank);
    assert_eq!(kinds[7], HintLine::Unrecognized);
    assert_eq!(lines_compiled(lines[5]), Some(29436));
    assert_eq!(lines_compiled("x lines; 1s"), None);
    assert_eq!(lines_compiled(" +12 lines; 1s"), Some(12));
    assert_eq!(lines_compiled("99999999999999999999 lines;"), None);
}

#[test]
fn hint_lines_are_counted_in_order() {
    let text = "Hint: used config file '/x/nim.cfg' [Conf]\nCC: stdlib_system.nim\n\n.....\nCC: fixture.nim\nweird line\nHint: [Link]\nHint: mm: orc; 12345 lines; 0.512s; 30.1MiB peakmem; proj: /x [SuccessX]\n";
    let c = laminaria_run::nim_telemetry::count_hint_lines(text);
    assert_eq!(c.processed_modules, vec!["stdlib_system.nim".to_string(), "fixture.nim".to_string()]);
    assert!(c.linked);
    assert_eq!(c.summary_lines.len(), 1);
    assert!(c.summary_lines[0].ends_with("[SuccessX]"));
    assert_eq!(c.unrecognized_line_count, 1);
    let empty = laminaria_run::nim_telemetry::count_hint_lines("");
    assert!(empty.processed_modules.is_empty() && !empty.linked && empty.unrecognized_line_count == 0);
}
