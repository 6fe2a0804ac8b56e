use pie::ui::brand::{self, Palette, Tint};
use pie::ui::{format_bytes, format_duration, truncate, Elapsed, Reporter, Shown};
use std::time::Duration;

fn elapsed(duration: Duration) -> Elapsed {
    Elapsed {
        secs: duration.as_secs(),
        nanos: duration.subsec_nanos(),
    }
}

#[test]
fn durations_scale() {
    assert_eq!(
        format_duration(elapsed(Duration::from_secs_f64(1.5))),
        "1.5s"
    );
    assert_eq!(format_duration(elapsed(Duration::from_secs(90))), "1m 30s");
    assert_eq!(
        format_duration(elapsed(Duration::from_secs(3725))),
        "1h 02m 05s"
    );
}

#[test]
fn bytes_scale() {
    assert_eq!(format_bytes(512), "512 B");
    assert_eq!(format_bytes(1024), "1.0 KiB");
    assert_eq!(format_bytes(28 * 1024 * 1024), "28.0 MiB");
}

#[test]
fn truncation_is_char_safe() {
    assert_eq!(truncate("hello", 10), "hello");
    assert_eq!(truncate("hello world", 8), "hello w…");
    assert_eq!(truncate("héllo wörld", 8), "héllo w…");
}

#[test]
fn labels_pad_before_colouring() {
    // The escape sequence must wrap the padding, not sit inside it.
    let label = brand::label("recipe", 10);
    assert!(label.contains("    recipe"));
}

#[test]
fn truncation_leaves_room_for_the_ellipsis() {
    assert_eq!(truncate("ab", 1), "…");
    assert_eq!(truncate("ab", 0), "…");
    assert_eq!(truncate("", 0), "");
}

/// Seconds are rounded as double numbers are.
#[test]
fn durations_round_like_doubles() {
    for secs in 0..60 {
        for step in 0..500u32 {
            let nanos = step * 2_000_000;
            let duration = Duration::new(secs, nanos);
            assert_eq!(
                format_duration(elapsed(duration)),
                format!("{:.1}s", duration.as_secs_f64())
            );
        }
        // The places where a tenth begins, and the nanoseconds around them.
        for tenth in 0..10u32 {
            for nanos in [-1i64, 0, 1] {
                let nanos = (tenth as i64 * 100_000_000 + 50_000_000 + nanos) as u32;
                let duration = Duration::new(secs, nanos);
                assert_eq!(
                    format_duration(elapsed(duration)),
                    format!("{:.1}s", duration.as_secs_f64())
                );
            }
        }
    }
    assert_eq!(
        format_duration(Elapsed {
            secs: 59,
            nanos: 999_999_999
        }),
        "60.0s"
    );
    assert_eq!(format_duration(Elapsed { secs: 0, nanos: 1 }), "0.0s");
}

fn bytes_with_floats(bytes: u64) -> String {
    const UNITS: [&str; 5] = ["B", "KiB", "MiB", "GiB", "TiB"];
    let mut value = bytes as f64;
    let mut unit = 0;
    while value >= 1024.0 && unit < UNITS.len() - 1 {
        value /= 1024.0;
        unit += 1;
    }
    if unit == 0 {
        format!("{bytes} {}", UNITS[0])
    } else {
        format!("{value:.1} {}", UNITS[unit])
    }
}

/// Sizes are rounded as double numbers are.
#[test]
fn bytes_round_like_doubles() {
    for bits in 0..64 {
        let power = 1u64 << bits;
        for offset in 0..200u64 {
            for bytes in [
                power.saturating_sub(offset),
                power.saturating_add(offset),
                power.saturating_add(power / 200 * offset),
                power / 20 * offset.min(20),
            ] {
                assert_eq!(format_bytes(bytes), bytes_with_floats(bytes));
            }
        }
    }
    assert_eq!(format_bytes(u64::MAX), bytes_with_floats(u64::MAX));
    assert_eq!(format_bytes(u64::MAX), "16777216.0 TiB");
    assert_eq!(format_bytes(1023), "1023 B");
    assert_eq!(format_bytes(1280), "1.2 KiB");
    assert_eq!(format_bytes(1792), "1.8 KiB");
}

const ON: Palette = Palette { enabled: true };
const OFF: Palette = Palette { enabled: false };

#[test]
fn colours_are_escape_sequences() {
    assert_eq!(ON.title("x"), "\u{1b}[38;5;198m\u{1b}[1mx\u{1b}[0m");
    assert_eq!(ON.name("x"), "\u{1b}[38;5;141mx\u{1b}[0m");
    assert_eq!(ON.ok("x"), "\u{1b}[38;5;44m\u{1b}[1mx\u{1b}[0m");
    assert_eq!(ON.error("x"), "\u{1b}[38;5;197m\u{1b}[1mx\u{1b}[0m");
    assert_eq!(ON.dim("x"), "\u{1b}[38;5;245mx\u{1b}[0m");
    assert_eq!(ON.label("x", 3), "\u{1b}[38;5;245m  x\u{1b}[0m");
    assert_eq!(ON.paint(Tint::Yellow, "x"), "\u{1b}[33mx\u{1b}[0m");
    assert_eq!(
        ON.paint(Tint::BoldCyan, "x"),
        "\u{1b}[36m\u{1b}[1mx\u{1b}[0m"
    );
    assert_eq!(OFF.title("x"), "x");
    assert_eq!(OFF.label("x", 3), "  x");
    assert_eq!(OFF.paint(Tint::Yellow, "x"), "x");
    assert_eq!(OFF.paint(Tint::BoldCyan, "x"), "x");
}

#[test]
fn brand_texts_follow_the_palette_of_standard_output() {
    let palette = Palette::current();
    assert_eq!(brand::title("x"), palette.title("x"));
    assert_eq!(brand::name("x"), palette.name("x"));
    assert_eq!(brand::ok("x"), palette.ok("x"));
    assert_eq!(brand::error("x"), palette.error("x"));
    assert_eq!(brand::dim("x"), palette.dim("x"));
}

#[test]
fn spinners_are_for_watched_terminals() {
    assert!(Reporter::new(false, true, false, OFF).interactive);
    assert!(!Reporter::new(true, true, false, OFF).interactive);
    assert!(!Reporter::new(false, false, false, OFF).interactive);
    assert!(!Reporter::new(false, true, true, OFF).interactive);
    assert!(Reporter::new(true, true, false, OFF).is_verbose());
}

#[test]
fn reports_in_words() {
    let reporter = Reporter::new(true, false, false, OFF);
    assert_eq!(reporter.heading("pie", "d"), "\n  pie d");
    assert_eq!(reporter.info("recipe", "r"), "      recipe r");
    assert_eq!(reporter.note("n"), "  note n");
    assert_eq!(reporter.success("s"), "\n  ✔ s\n");
    assert_eq!(reporter.failure("f"), "\n  ✖ f\n");
}

fn printed(shown: Shown) -> String {
    match shown {
        Shown::Printed(line) => line,
        Shown::Spinner(message) => panic!("{message}"),
    }
}

fn spinner(shown: Shown) -> String {
    match shown {
        Shown::Spinner(message) => message,
        Shown::Printed(line) => panic!("{line}"),
    }
}

const SECOND: Elapsed = Elapsed { secs: 1, nanos: 0 };

#[test]
fn steps_print_every_line_without_a_spinner() {
    let reporter = Reporter::new(true, true, false, OFF);
    let (mut step, shown) = reporter.step("Build", 80);
    assert_eq!(printed(shown), "  ▸ Build");
    assert_eq!(printed(step.line("cc -c a.c \n")), "  │ cc -c a.c");
    assert_eq!(step.say("said"), "  │ said");
    assert_eq!(step.fail(SECOND), vec!["  ✖ Build 1.0s"]);
    let (step, _) = reporter.step("Build", 80);
    assert_eq!(step.finish(SECOND), "  ✔ Build 1.0s");
}

#[test]
fn steps_show_the_newest_line_beside_a_spinner() {
    let reporter = Reporter::new(false, true, false, OFF);
    let (mut step, shown) = reporter.step("Build", 40);
    assert_eq!(spinner(shown), "Build");
    // 40 columns, less the name and what stands around it.
    assert_eq!(
        spinner(step.line("0123456789012345678901234567890123456789")),
        "Build 0123456789012345678901…"
    );
    let (mut narrow, _) = reporter.step("Bäu", 0);
    assert_eq!(
        spinner(narrow.line("01234567890123456789")),
        "Bäu 012345678901234…"
    );
}

#[test]
fn failed_steps_replay_their_last_lines() {
    let reporter = Reporter::new(false, true, false, OFF);
    let (mut step, _) = reporter.step("Build", 80);
    for i in 0..100 {
        step.line(&format!("line {i}  "));
    }
    let lines = step.fail(SECOND);
    assert_eq!(lines.len(), 62);
    assert_eq!(lines[0], "  ✖ Build 1.0s");
    assert_eq!(lines[1], "  last 60 lines:");
    assert_eq!(lines[2], "  │ line 40");
    assert_eq!(lines[61], "  │ line 99");

    let (step, _) = reporter.step("Build", 80);
    assert_eq!(step.fail(SECOND), vec!["  ✖ Build 1.0s"]);
}
