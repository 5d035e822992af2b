use rust_lib_demo::console::{Console, Signal};
use rust_lib_demo::demo::{check_popped, dump, iteration, rust_main, FIRST, LAST};
use rust_lib_demo::fatal::{alloc_error, on_panic, DiagnosticRecord, Fatal};
use rust_lib_demo::text::TextBuffer;

fn bytes(console: &Console) -> Vec<u8> {
    (0..console.len())
        .map(|i| match console.get(i).unwrap() {
            Signal::Byte(b) => b,
            Signal::Fault => unreachable!("fault trigger invoked"),
        })
        .collect()
}

fn sent(console: &Console) -> String {
    String::from_utf8(bytes(console)).unwrap()
}

fn quotient(i: i32) -> String {
    format!("{}", 10.0 / i as f64)
}

#[test]
fn quotient_texts() {
    assert_eq!(quotient(2), "5");
    assert_eq!(quotient(3), "3.3333333333333335");
    assert_eq!(quotient(0), "inf");
}

#[test]
fn rust_main_reference_run() {
    assert_eq!((FIRST, LAST), (2, 3));
    let quotients: Vec<String> = (FIRST..=LAST).map(quotient).collect();
    let mut console = Console::new();
    let fatal = rust_main(&quotients, &mut console);
    assert_eq!(fatal, Fatal::IntentionalTermination);
    assert_eq!(
        bytes(&console),
        b"Rust\r\ni 2\r\n5\r\ni 3\r\n3.3333333333333335\r\n[-9, -6, 2, 3]\r\n".to_vec()
    );
    assert_eq!(console.len(), 55);
}

#[test]
fn rust_main_sends_each_line_once() {
    let quotients: Vec<String> = (FIRST..=LAST).map(quotient).collect();
    let mut console = Console::new();
    rust_main(&quotients, &mut console);
    let text = sent(&console);
    let lines: Vec<&str> = text.split("\r\n").collect();
    assert_eq!(
        lines,
        vec!["Rust", "i 2", "5", "i 3", "3.3333333333333335", "[-9, -6, 2, 3]", ""]
    );
}

#[test]
fn rust_main_appends_to_console() {
    let quotients = vec![String::from("a"), String::from("b")];
    let mut console = Console::new();
    console.putchar(b'>');
    let fatal = rust_main(&quotients, &mut console);
    assert_eq!(fatal, Fatal::IntentionalTermination);
    assert_eq!(sent(&console), ">Rust\r\ni 2\r\na\r\ni 3\r\nb\r\n[-9, -6, 2, 3]\r\n");
}

#[test]
fn rust_main_quotient_without_room_for_line_break_is_tolerated() {
    let long = "9".repeat(127);
    let quotients = vec![long.clone(), String::from("5")];
    let mut console = Console::new();
    let fatal = rust_main(&quotients, &mut console);
    assert_eq!(fatal, Fatal::IntentionalTermination);
    assert_eq!(
        sent(&console),
        format!("Rust\r\ni 2\r\n{}i 3\r\n5\r\n[-9, -6, 2, 3]\r\n", long)
    );
}

#[test]
fn rust_main_quotient_that_does_not_fit_is_tolerated() {
    let quotients = vec!["9".repeat(129), "8".repeat(500)];
    let mut console = Console::new();
    let fatal = rust_main(&quotients, &mut console);
    assert_eq!(fatal, Fatal::IntentionalTermination);
    assert_eq!(sent(&console), "Rust\r\ni 2\r\ni 3\r\n[-9, -6, 2, 3]\r\n");
}

#[test]
fn rust_main_longest_quotient_lines() {
    let first = "7".repeat(126);
    let second = "3".repeat(126);
    let quotients = vec![first.clone(), second.clone()];
    let mut console = Console::new();
    let fatal = rust_main(&quotients, &mut console);
    assert_eq!(fatal, Fatal::IntentionalTermination);
    assert_eq!(
        sent(&console),
        format!("Rust\r\ni 2\r\n{}\r\ni 3\r\n{}\r\n[-9, -6, 2, 3]\r\n", first, second)
    );
}

#[test]
fn iteration_pushes_prints_and_pops() {
    let mut xs = vec![1];
    let mut buf = TextBuffer::new();
    let mut console = Console::new();
    let r = iteration(2, "5", &mut xs, &mut buf, &mut console);
    assert_eq!(r, Ok(()));
    assert_eq!(xs, vec![1, 2, -6]);
    assert_eq!(sent(&console), "i 2\r\n5\r\n");
    assert_eq!(buf.as_bytes().len(), 0);
}

#[test]
fn iteration_stages_each_line_in_an_empty_buffer() {
    let mut xs = Vec::new();
    let mut buf = TextBuffer::new();
    buf.write_str("5\r\n").unwrap();
    let mut console = Console::new();
    let r = iteration(3, "3.3333333333333335", &mut xs, &mut buf, &mut console);
    assert_eq!(r, Ok(()));
    assert_eq!(xs, vec![3, -9]);
    assert_eq!(sent(&console), "i 3\r\n3.3333333333333335\r\n");
    assert_eq!(buf.as_bytes().len(), 0);
}

#[test]
fn iteration_on_a_full_buffer() {
    let mut xs = Vec::new();
    let mut buf = TextBuffer::new();
    buf.write_str(&"x".repeat(128)).unwrap();
    let mut console = Console::new();
    let r = iteration(-4, "-2.5", &mut xs, &mut buf, &mut console);
    assert_eq!(r, Ok(()));
    assert_eq!(xs, vec![-4, 12]);
    assert_eq!(sent(&console), "i -4\r\n-2.5\r\n");
}

#[test]
fn iteration_twice_sends_four_lines() {
    let mut xs = Vec::new();
    let mut buf = TextBuffer::new();
    let mut console = Console::new();
    assert_eq!(iteration(2, "5", &mut xs, &mut buf, &mut console), Ok(()));
    assert_eq!(iteration(3, "3.3", &mut xs, &mut buf, &mut console), Ok(()));
    assert_eq!(xs, vec![2, -6, 3, -9]);
    assert_eq!(sent(&console), "i 2\r\n5\r\ni 3\r\n3.3\r\n");
}

#[test]
fn iteration_zero_divisor() {
    let mut xs = Vec::new();
    let mut buf = TextBuffer::new();
    let mut console = Console::new();
    let r = iteration(0, &quotient(0), &mut xs, &mut buf, &mut console);
    assert_eq!(r, Ok(()));
    assert_eq!(xs, vec![0, 0]);
    assert_eq!(sent(&console), "i 0\r\ninf\r\n");
}

#[test]
fn iteration_quotient_line_without_room_for_line_break() {
    let mut xs = Vec::new();
    let mut buf = TextBuffer::new();
    let mut console = Console::new();
    let q = "1".repeat(127);
    let r = iteration(2, &q, &mut xs, &mut buf, &mut console);
    assert_eq!(r, Ok(()));
    assert_eq!(sent(&console), format!("i 2\r\n{}", q));
    assert_eq!(buf.as_bytes().len(), 0);
}

#[test]
fn iteration_quotient_line_that_fits_exactly() {
    let mut xs = Vec::new();
    let mut buf = TextBuffer::new();
    let mut console = Console::new();
    let q = "1".repeat(126);
    let r = iteration(2, &q, &mut xs, &mut buf, &mut console);
    assert_eq!(r, Ok(()));
    assert_eq!(sent(&console), format!("i 2\r\n{}\r\n", q));
}

#[test]
fn iteration_quotient_text_too_long_sends_only_the_index_line() {
    let mut xs = Vec::new();
    let mut buf = TextBuffer::new();
    let mut console = Console::new();
    let r = iteration(2, &"1".repeat(129), &mut xs, &mut buf, &mut console);
    assert_eq!(r, Ok(()));
    assert_eq!(sent(&console), "i 2\r\n");
}

#[test]
fn iteration_largest_loop_values() {
    let mut xs = Vec::new();
    let mut buf = TextBuffer::new();
    let mut console = Console::new();
    let r = iteration(715827882, "0", &mut xs, &mut buf, &mut console);
    assert_eq!(r, Ok(()));
    assert_eq!(xs, vec![715827882, -2147483646]);
    let r = iteration(-715827882, "0", &mut xs, &mut buf, &mut console);
    assert_eq!(r, Ok(()));
    assert_eq!(xs, vec![715827882, -2147483646, -715827882, 2147483646]);
    assert_eq!(
        sent(&console),
        "i 715827882\r\n0\r\ni -715827882\r\n0\r\n"
    );
}

#[test]
fn check_popped_accepts_only_the_pushed_value() {
    assert_eq!(check_popped(Some(2), 2), Ok(()));
    assert_eq!(check_popped(Some(-6), 2), Err(Fatal::LogicViolation));
    assert_eq!(check_popped(None, 2), Err(Fatal::LogicViolation));
    assert_eq!(Fatal::LogicViolation.message(), "??");
}

#[test]
fn dump_formats_like_debug() {
    for xs in [vec![], vec![5], vec![-9, -6, 2, 3], vec![i32::MIN, 0, i32::MAX]] {
        let mut buf = TextBuffer::new();
        let mut console = Console::new();
        let fatal = dump(&xs, &mut buf, &mut console);
        assert_eq!(fatal, Fatal::IntentionalTermination);
        assert_eq!(sent(&console), format!("{:?}\r\n", xs));
        assert_eq!(buf.as_bytes().len(), 0);
    }
}

#[test]
fn dump_reference_buffer() {
    let mut buf = TextBuffer::new();
    let mut console = Console::new();
    let fatal = dump(&vec![-9, -6, 2, 3], &mut buf, &mut console);
    assert_eq!(fatal, Fatal::IntentionalTermination);
    assert_eq!(sent(&console), "[-9, -6, 2, 3]\r\n");
}

#[test]
fn dump_starts_from_an_empty_buffer() {
    let mut buf = TextBuffer::new();
    buf.write_str("3.3333333333333335\r\n").unwrap();
    let mut console = Console::new();
    let fatal = dump(&vec![-9, -6, 2, 3], &mut buf, &mut console);
    assert_eq!(fatal, Fatal::IntentionalTermination);
    assert_eq!(sent(&console), "[-9, -6, 2, 3]\r\n");
}

#[test]
fn dump_overflow_is_fatal() {
    let xs: Vec<i32> = (0..40).collect();
    let mut buf = TextBuffer::new();
    let mut console = Console::new();
    let fatal = dump(&xs, &mut buf, &mut console);
    assert_eq!(fatal, Fatal::FormatOverflow);
    assert_eq!(console.len(), 0);
    let held = String::from_utf8(buf.as_bytes().to_vec()).unwrap();
    assert_eq!(held, "[0, 1, 2, 3, 4, 5, 6, 7, 8, 9, 10, 11, 12, 13, 14, 15, 16, 17, 18, 19, 20, 21, 22, 23, 24, 25, 26, 27, 28, 29, 30, 31, 32, 33, ");
    assert_eq!(held.len(), 127);
}

#[test]
fn dump_line_that_fits_exactly() {
    let xs: Vec<i32> = vec![1; 42];
    assert_eq!(format!("{:?}\r\n", xs).len(), 128);
    let mut buf = TextBuffer::new();
    let mut console = Console::new();
    assert_eq!(dump(&xs, &mut buf, &mut console), Fatal::IntentionalTermination);
    assert_eq!(sent(&console), format!("{:?}\r\n", xs));
    let mut xs = xs;
    xs[0] = 10;
    let mut console = Console::new();
    assert_eq!(dump(&xs, &mut buf, &mut console), Fatal::FormatOverflow);
    assert_eq!(console.len(), 0);
}

#[test]
fn fatal_messages() {
    assert_eq!(Fatal::OutOfMemory.message(), "Heap");
    assert_eq!(Fatal::IntentionalTermination.message(), "test");
    assert_eq!(Fatal::LogicViolation.message(), "??");
    assert_eq!(
        Fatal::FormatOverflow.message(),
        "called `Result::unwrap()` on an `Err` value: Error"
    );
    assert_eq!(alloc_error(), Fatal::OutOfMemory);
}

fn record(message: &str) -> DiagnosticRecord<'_> {
    DiagnosticRecord { message, file: "src/lib.rs", line: 58, column: 5 }
}

fn all(console: &Console) -> Vec<Signal> {
    (0..console.len()).map(|i| console.get(i).unwrap()).collect()
}

#[test]
fn handler_sends_sentinel_line_and_one_fault() {
    let mut console = Console::new();
    on_panic(&record(Fatal::IntentionalTermination.message()), &mut console);
    let signals = all(&console);
    let mut expected: Vec<Signal> = vec![Signal::Byte(b'!')];
    expected.extend("panicked at src/lib.rs:58:5:\ntest\r\n".bytes().map(Signal::Byte));
    expected.push(Signal::Fault);
    assert_eq!(signals, expected);
    assert_eq!(signals.iter().filter(|s| **s == Signal::Fault).count(), 1);
    assert_eq!(signals.iter().filter(|s| **s == Signal::Byte(b'!')).count(), 1);
    assert_eq!(signals.first(), Some(&Signal::Byte(b'!')));
    assert_eq!(signals.last(), Some(&Signal::Fault));
}

#[test]
fn handler_after_the_whole_run() {
    let quotients: Vec<String> = (FIRST..=LAST).map(quotient).collect();
    let mut console = Console::new();
    let fatal = rust_main(&quotients, &mut console);
    on_panic(&record(fatal.message()), &mut console);
    let signals = all(&console);
    let mut expected: Vec<Signal> =
        "Rust\r\ni 2\r\n5\r\ni 3\r\n3.3333333333333335\r\n[-9, -6, 2, 3]\r\n!panicked at src/lib.rs:58:5:\ntest\r\n"
            .bytes()
            .map(Signal::Byte)
            .collect();
    expected.push(Signal::Fault);
    assert_eq!(signals, expected);
}

#[test]
fn handler_for_each_condition() {
    for fatal in [Fatal::OutOfMemory, Fatal::LogicViolation, Fatal::FormatOverflow] {
        let mut console = Console::with_capacity(130);
        on_panic(&record(fatal.message()), &mut console);
        let mut expected: Vec<Signal> = vec![Signal::Byte(b'!')];
        expected.extend(
            format!("panicked at src/lib.rs:58:5:\n{}\r\n", fatal.message())
                .bytes()
                .map(Signal::Byte),
        );
        expected.push(Signal::Fault);
        assert_eq!(all(&console), expected);
    }
}

#[test]
fn handler_with_message_too_long_sends_what_fits() {
    let mut console = Console::new();
    let message = "m".repeat(200);
    on_panic(&record(&message), &mut console);
    let signals = all(&console);
    let mut expected: Vec<Signal> = "!panicked at src/lib.rs:58:5:\n"
        .bytes()
        .map(Signal::Byte)
        .collect();
    expected.push(Signal::Fault);
    assert_eq!(signals, expected);
}

#[test]
fn handler_with_file_too_long_still_faults_once() {
    let mut console = Console::new();
    let file = "f".repeat(117);
    let record = DiagnosticRecord { message: "test", file: &file, line: 1, column: 1 };
    on_panic(&record, &mut console);
    let mut expected: Vec<Signal> = "!panicked at ".bytes().map(Signal::Byte).collect();
    expected.push(Signal::Fault);
    assert_eq!(all(&console), expected);
}

#[test]
fn handler_line_that_fits_exactly() {
    let mut console = Console::new();
    let message = "m".repeat(128 - "panicked at src/lib.rs:58:5:\n\r\n".len());
    on_panic(&record(&message), &mut console);
    let line = format!("panicked at src/lib.rs:58:5:\n{}\r\n", message);
    assert_eq!(line.len(), 128);
    let mut expected: Vec<Signal> = vec![Signal::Byte(b'!')];
    expected.extend(line.bytes().map(Signal::Byte));
    expected.push(Signal::Fault);
    assert_eq!(all(&console), expected);
}
